//! Chunks: what is known of them, and how their bytes are read.

use crate::uploader::encrypt::encryption_splits;
use crate::uploader::encrypt::xor_keystream;
use crate::uploader::encrypt::EncryptionConfig;
use vstd::prelude::*;

verus! {

/// What has arrived of a chunk.
#[derive(Debug)]
pub struct ChunkProgress {
    pub index: usize,
    pub loaded: u64,
    pub etag: Option<String>,
}

impl Clone for ChunkProgress {
    fn clone(&self) -> (r: Self)
        ensures
            r == *self,
    {
        ChunkProgress { index: self.index, loaded: self.loaded, etag: self.etag.clone() }
    }
}

impl ChunkProgress {
    /// Whether the chunk has arrived.
    pub open spec fn complete(self) -> bool {
        self.loaded > 0
    }

    /// A chunk of which nothing has arrived.
    pub fn new(index: usize) -> (r: Self)
        ensures
            r == (ChunkProgress { index, loaded: 0, etag: None }),
    {
        ChunkProgress { index, loaded: 0, etag: None }
    }

    /// Whether the chunk has arrived.
    pub fn is_complete(&self) -> (r: bool)
        ensures
            r == self.complete(),
    {
        self.loaded > 0
    }
}

/// The place of a chunk in its file.
#[derive(Debug, Clone, Copy, PartialEq, Eq, Structural)]
pub struct ChunkInfo {
    pub index: usize,
    pub size: u64,
    pub offset: u64,
}

impl ChunkInfo {
    /// The chunk `index`, of `size` bytes from `offset` on.
    pub fn new(index: usize, offset: u64, size: u64) -> (r: Self)
        ensures
            r == (ChunkInfo { index, size, offset }),
    {
        ChunkInfo { index, offset, size }
    }
}

/// What is sent of `data`, which stands at `offset` in its file.
pub open spec fn sent_bytes(
    encryption: Option<EncryptionConfig>,
    data: Seq<u8>,
    offset: nat,
) -> Seq<u8> {
    match encryption {
        Some(config) => xor_keystream(config.key(), config.iv(), data, offset),
        None => data,
    }
}

/// What a reader does next.
#[derive(Debug, Clone, Copy, PartialEq, Eq, Structural)]
pub enum ReadStep {
    /// The chunk has been read to its end.
    Done,
    /// Read up to so many bytes of the file.
    Read(usize),
}

/// How far a chunk of a file has been read.
pub struct ChunkReader {
    encryption: Option<EncryptionConfig>,
    start_offset: u64,
    position: u64,
    remaining: u64,
}

impl ChunkReader {
    #[verifier::type_invariant]
    spec fn size_fits(self) -> bool {
        self.position + self.remaining <= u64::MAX
    }

    /// The cipher that the bytes go through.
    pub closed spec fn encryption(self) -> Option<EncryptionConfig> {
        self.encryption
    }

    /// Where the chunk starts in its file.
    pub closed spec fn start_offset(self) -> nat {
        self.start_offset as nat
    }

    /// The bytes that have been read.
    pub closed spec fn position(self) -> nat {
        self.position as nat
    }

    /// The bytes that have not been read.
    pub closed spec fn remaining(self) -> u64 {
        self.remaining
    }

    /// A reader at the start of a chunk of `size` bytes from `offset` on.
    pub fn new(offset: u64, size: u64, encryption: Option<EncryptionConfig>) -> (r: Self)
        ensures
            r.encryption() == encryption,
            r.start_offset() == offset,
            r.position() == 0,
            r.remaining() == size,
    {
        ChunkReader { encryption, start_offset: offset, position: 0, remaining: size }
    }

    /// The bytes of the chunk.
    pub fn size(&self) -> (r: u64)
        ensures
            r == self.position() + self.remaining(),
    {
        proof {
            use_type_invariant(self);
        }
        self.position + self.remaining
    }

    /// Whether this is what a read into a buffer with `room` for so many bytes asks of the
    /// file.
    pub open spec fn asks_for(self, room: usize, step: ReadStep) -> bool {
        if self.remaining() == 0 {
            step == ReadStep::Done
        } else {
            step == ReadStep::Read(
                if (self.remaining() as usize) < room {
                    self.remaining() as usize
                } else {
                    room
                },
            )
        }
    }

    /// What a read into a buffer with `room` for so many bytes asks of the file.
    pub fn poll_read(&self, room: usize) -> (r: ReadStep)
        ensures
            self.asks_for(room, r),
            self.remaining() == 0 ==> r == ReadStep::Done,
            self.remaining() > 0 ==> r == ReadStep::Read(
                if (self.remaining() as usize) < room {
                    self.remaining() as usize
                } else {
                    room
                },
            ),
            r matches ReadStep::Read(n) ==> n <= self.remaining() && n <= room,
            0 < self.remaining() <= usize::MAX && room > 0 ==> (r matches ReadStep::Read(n) && n
                > 0),
    {
        if self.remaining == 0 {
            return ReadStep::Done;
        }
        let remaining: u64 = self.remaining;
        let left: usize = remaining as usize;
        assert((remaining as usize) as u64 <= remaining) by (bit_vector);
        if left < room {
            ReadStep::Read(left)
        } else {
            ReadStep::Read(room)
        }
    }

    /// Whether `after` and `sent` are what comes of the bytes `data` that the file
    /// gave.
    pub open spec fn took(self, after: ChunkReader, data: Seq<u8>, sent: Seq<u8>) -> bool {
        &&& sent == sent_bytes(self.encryption(), data, self.start_offset() + self.position())
        &&& after.encryption() == self.encryption()
        &&& after.start_offset() == self.start_offset()
        &&& after.position() == self.position() + data.len()
        &&& after.remaining() == self.remaining() - data.len()
    }

    /// Takes in the bytes that the file gave: encrypts them in place for where
    /// they stand in the file, and moves on by their number.
    pub fn finish_read(&mut self, filled: &mut [u8])
        requires
            old(filled)@.len() <= old(self).remaining(),
            old(self).encryption() is Some ==> old(self).start_offset() + old(self).position()
                <= u64::MAX,
        ensures
            old(self).took(*final(self), old(filled)@, final(filled)@),
    {
        proof {
            use_type_invariant(&*self);
        }
        let bytes_read: u64 = filled.len() as u64;
        if let Some(config) = &self.encryption {
            let file_offset: u64 = self.start_offset + self.position;
            config.encrypt_at_offset(filled, file_offset);
        }
        self.remaining = self.remaining - bytes_read;
        self.position = self.position + bytes_read;
    }
}

/// What a reader at `offset` sends, piece by piece.
pub open spec fn sent_in_pieces(
    encryption: Option<EncryptionConfig>,
    pieces: Seq<Seq<u8>>,
    offset: nat,
) -> Seq<u8>
    decreases pieces.len(),
{
    if pieces.len() == 0 {
        Seq::empty()
    } else {
        sent_bytes(encryption, pieces.first(), offset) + sent_in_pieces(
            encryption,
            pieces.drop_first(),
            offset + pieces.first().len(),
        )
    }
}

/// The pieces, one after the other.
pub open spec fn joined(pieces: Seq<Seq<u8>>) -> Seq<u8>
    decreases pieces.len(),
{
    if pieces.len() == 0 {
        Seq::empty()
    } else {
        pieces.first() + joined(pieces.drop_first())
    }
}

/// However the file hands out a chunk, in whatever pieces, what is sent of it is
/// the whole of it encrypted at once.
pub proof fn pieces_do_not_show(
    encryption: Option<EncryptionConfig>,
    pieces: Seq<Seq<u8>>,
    offset: nat,
)
    ensures
        sent_in_pieces(encryption, pieces, offset) == sent_bytes(
            encryption,
            joined(pieces),
            offset,
        ),
    decreases pieces.len(),
{
    if pieces.len() > 0 {
        let head = pieces.first();
        let rest = pieces.drop_first();
        pieces_do_not_show(encryption, rest, offset + head.len());
        if let Some(config) = encryption {
            encryption_splits(config.key(), config.iv(), head, joined(rest), offset);
        }
    } else {
        assert(sent_bytes(encryption, joined(pieces), offset) =~= Seq::<u8>::empty());
    }
}

/// Whether readers took in these pieces of a file, one by one, each as long as it may
/// be and from where the reader stood.
pub open spec fn read_through(
    readers: Seq<ChunkReader>,
    pieces: Seq<Seq<u8>>,
    sent: Seq<Seq<u8>>,
    file: Seq<u8>,
) -> bool {
    &&& readers.len() == pieces.len() + 1
    &&& sent.len() == pieces.len()
    &&& forall|k: int|
        0 <= k < pieces.len() ==> {
            let at = readers[k].start_offset() + readers[k].position();
            &&& (#[trigger] pieces[k]).len() <= readers[k].remaining()
            &&& at + pieces[k].len() <= file.len()
            &&& pieces[k] == file.subrange(at as int, (at + pieces[k].len()) as int)
            &&& readers[k].took(readers[k + 1], pieces[k], sent[k])
        }
}

proof fn lemma_read_so_far(
    readers: Seq<ChunkReader>,
    pieces: Seq<Seq<u8>>,
    sent: Seq<Seq<u8>>,
    file: Seq<u8>,
    n: int,
)
    requires
        read_through(readers, pieces, sent, file),
        readers[0].position() == 0,
        readers[0].start_offset() <= file.len(),
        0 <= n <= pieces.len(),
    ensures
        ({
            let start = readers[0].start_offset();
            &&& readers[n].encryption() == readers[0].encryption()
            &&& readers[n].start_offset() == start
            &&& readers[n].position() + readers[n].remaining() == readers[0].remaining()
            &&& start + readers[n].position() <= file.len()
            &&& joined(sent.take(n)) == sent_bytes(
                readers[0].encryption(),
                file.subrange(start as int, (start + readers[n].position()) as int),
                start,
            )
        }),
    decreases n,
{
    let start = readers[0].start_offset();
    let encryption = readers[0].encryption();
    if n == 0 {
        assert(file.subrange(start as int, start as int) =~= Seq::<u8>::empty());
        assert(sent_bytes(encryption, Seq::<u8>::empty(), start) =~= Seq::<u8>::empty());
    } else {
        let m = n - 1;
        lemma_read_so_far(readers, pieces, sent, file, m);
        assert(pieces[m].len() <= readers[m].remaining());
        let at = start + readers[m].position();
        let head = file.subrange(start as int, at as int);
        let part = pieces[m];
        assert(file.subrange(start as int, (at + part.len()) as int) =~= head + part);
        if let Some(config) = encryption {
            encryption_splits(config.key(), config.iv(), head, part, start);
        }
        lemma_joined_of_push(sent.take(m), sent[m]);
        assert(sent.take(n) =~= sent.take(m).push(sent[m]));
    }
}

proof fn lemma_joined_of_push(pieces: Seq<Seq<u8>>, piece: Seq<u8>)
    ensures
        joined(pieces.push(piece)) == joined(pieces) + piece,
    decreases pieces.len(),
{
    if pieces.len() == 0 {
        assert(joined(pieces.push(piece).drop_first()) =~= Seq::<u8>::empty());
        assert(joined(pieces.push(piece)) =~= joined(pieces) + piece);
    } else {
        assert(pieces.push(piece).drop_first() =~= pieces.drop_first().push(piece));
        lemma_joined_of_push(pieces.drop_first(), piece);
        assert(joined(pieces.push(piece)) =~= joined(pieces) + piece);
    }
}

/// A chunk that is read to its end, or to that of the file where the file ends
/// inside it, in whatever pieces, is sent as its range of the file, encrypted for
/// where it stands.
pub proof fn chunk_read_to_its_end_is_its_range(
    readers: Seq<ChunkReader>,
    pieces: Seq<Seq<u8>>,
    sent: Seq<Seq<u8>>,
    file: Seq<u8>,
    chunk: ChunkInfo,
)
    requires
        read_through(readers, pieces, sent, file),
        readers[0].start_offset() == chunk.offset,
        readers[0].position() == 0,
        readers[0].remaining() == chunk.size,
        chunk.offset <= file.len(),
        readers.last().remaining() == 0 || chunk.offset + readers.last().position() == file.len(),
    ensures
        readers.last().remaining() == 0 ==> chunk.offset + chunk.size <= file.len(),
        joined(sent) == sent_bytes(
            readers[0].encryption(),
            file.subrange(
                chunk.offset as int,
                if chunk.offset + chunk.size < file.len() {
                    chunk.offset + chunk.size
                } else {
                    file.len() as int
                },
            ),
            chunk.offset as nat,
        ),
{
    lemma_read_so_far(readers, pieces, sent, file, pieces.len() as int);
    assert(sent.take(pieces.len() as int) =~= sent);
}

/// What is sent of a byte is the byte itself where nothing is encrypted, and else the
/// byte with the stream of its file over it, for where it stands in the file.
pub proof fn bytes_are_sent_for_where_they_stand(
    encryption: Option<EncryptionConfig>,
    data: Seq<u8>,
    offset: nat,
    j: int,
)
    requires
        0 <= j < data.len(),
    ensures
        sent_bytes(encryption, data, offset).len() == data.len(),
        sent_bytes(encryption, data, offset)[j] == match encryption {
            None => data[j],
            Some(config) => data[j] ^ crate::uploader::encrypt::aes256_block(
                config.key(),
                crate::uploader::encrypt::be_bytes(
                    crate::uploader::encrypt::be_value(config.iv()) + ((offset + j) / 16) as nat,
                    16,
                ),
            )[(offset + j) % 16],
        },
{
    if let Some(config) = encryption {
        crate::uploader::encrypt::file_is_one_stream(config.key(), config.iv(), data, offset, j);
    }
}

/// A reader goes through its chunk from the start to the end: what it takes in moves it
/// on by as much and leaves as much less, and it is sent for where it stands.
pub proof fn readers_move_on_by_what_they_take(
    before: ChunkReader,
    after: ChunkReader,
    data: Seq<u8>,
    sent: Seq<u8>,
    j: int,
)
    requires
        before.took(after, data, sent),
        0 <= j < data.len(),
    ensures
        sent.len() == data.len(),
        after.position() == before.position() + data.len(),
        after.remaining() == before.remaining() - data.len(),
        after.start_offset() == before.start_offset(),
        after.encryption() == before.encryption(),
        sent[j] == match before.encryption() {
            None => data[j],
            Some(config) => data[j] ^ crate::uploader::encrypt::aes256_block(
                config.key(),
                crate::uploader::encrypt::be_bytes(
                    crate::uploader::encrypt::be_value(config.iv()) + ((before.start_offset()
                        + before.position() + j) / 16) as nat,
                    16,
                ),
            )[(before.start_offset() + before.position() + j) % 16],
        },
{
    bytes_are_sent_for_where_they_stand(
        before.encryption(),
        data,
        before.start_offset() + before.position(),
        j,
    );
}

/// A reader is done exactly when nothing of its chunk remains. Until then it asks for as
/// much as fits and remains, where what remains can be told by a buffer's length.
pub proof fn readers_ask_until_nothing_remains(reader: ChunkReader, room: usize, step: ReadStep)
    requires
        reader.asks_for(room, step),
    ensures
        step is Done <==> reader.remaining() == 0,
        reader.remaining() <= usize::MAX ==> (step matches ReadStep::Read(n) ==> n <= room && n
            <= reader.remaining() && (n == room || n == reader.remaining())),
{
}

}
