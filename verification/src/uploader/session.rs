//! Upload sessions: how a file is cut into chunks, and which have arrived.

use crate::api::models::EncryptMetadata;
use crate::api::models::UploadCredential;
use crate::text::opt_str;
use crate::text::opt_text;
use crate::uploader::chunk::ChunkProgress;
use crate::uploader::clock::latest_timestamp;
use crate::uploader::clock::utc_timestamp;
use crate::uploader::providers::PolicyType;
use vstd::prelude::*;
use vstd::string::*;

verus! {

/// The number of chunks of a file: one where the file is empty or is not cut.
pub open spec fn chunk_count(file_size: nat, chunk_size: nat) -> nat {
    if file_size == 0 || chunk_size == 0 {
        1
    } else {
        ((file_size + chunk_size - 1) / chunk_size as int) as nat
    }
}

/// Where the chunk `index` starts.
pub open spec fn chunk_start(chunk_size: nat, index: nat) -> nat {
    if chunk_size == 0 {
        0
    } else {
        index * chunk_size
    }
}

/// The bytes of the chunk `index`: a full chunk, or what the file still has.
pub open spec fn chunk_len(file_size: nat, chunk_size: nat, index: nat) -> nat {
    let start = chunk_start(chunk_size, index);
    let rest = if start < file_size {
        (file_size - start) as nat
    } else {
        0
    };
    if chunk_size == 0 {
        file_size
    } else if rest < chunk_size {
        rest
    } else {
        chunk_size
    }
}

/// The chunks that have not arrived, by number, in their order.
pub open spec fn pending_of(progress: Seq<ChunkProgress>) -> Seq<usize> {
    progress.filter(|c: ChunkProgress| !c.complete()).map_values(|c: ChunkProgress| c.index)
}

/// The bytes that have arrived.
pub open spec fn loaded_sum(progress: Seq<ChunkProgress>) -> nat
    decreases progress.len(),
{
    if progress.len() == 0 {
        0
    } else {
        loaded_sum(progress.drop_last()) + progress.last().loaded as nat
    }
}

/// What the chunk becomes of which `loaded` bytes have arrived, with a new tag
/// where there is one.
pub open spec fn with_progress(
    chunk: ChunkProgress,
    loaded: u64,
    etag: Option<String>,
) -> ChunkProgress {
    ChunkProgress {
        index: chunk.index,
        loaded,
        etag: if etag is Some {
            etag
        } else {
            chunk.etag
        },
    }
}

/// What becomes of the progress when so many bytes of a chunk are noted. A number that no
/// chunk has changes nothing.
pub open spec fn with_noted(
    progress: Seq<ChunkProgress>,
    index: usize,
    loaded: u64,
    etag: Option<String>,
) -> Seq<ChunkProgress> {
    if index < progress.len() {
        progress.update(index as int, with_progress(progress[index as int], loaded, etag))
    } else {
        progress
    }
}

/// What becomes of the progress when a chunk is complete: the chunk holds all its
/// bytes. A number that no chunk has changes nothing.
pub open spec fn with_complete(
    progress: Seq<ChunkProgress>,
    file_size: u64,
    chunk_size: u64,
    index: usize,
    etag: Option<String>,
) -> Seq<ChunkProgress> {
    if index < progress.len() {
        progress.update(
            index as int,
            with_progress(
                progress[index as int],
                chunk_len(file_size as nat, chunk_size as nat, index as nat) as u64,
                etag,
            ),
        )
    } else {
        progress
    }
}

/// One upload of one file.
#[derive(Debug, Clone)]
pub struct UploadSession {
    pub id: String,
    pub task_id: String,
    pub drive_id: String,
    pub local_path: String,
    pub remote_uri: String,
    pub file_size: u64,
    pub chunk_size: u64,
    pub policy_type: PolicyType,
    pub credential: UploadCredential,
    pub relay: bool,
    pub chunk_progress: Vec<ChunkProgress>,
    pub encrypt_metadata: Option<EncryptMetadata>,
    pub expires_at: i64,
    pub created_at: i64,
    pub updated_at: i64,
}

impl UploadSession {
    /// Whether a session for the file can be opened: the sum that counts the
    /// chunks and the list of them have to fit.
    pub open spec fn can_open(file_size: u64, chunk_size: u64) -> bool {
        &&& file_size == 0 || chunk_size == 0 || file_size + chunk_size <= u64::MAX
        &&& chunk_count(file_size as nat, chunk_size as nat) <= usize::MAX
    }

    /// Whether the session is one just opened with these.
    pub open spec fn opened(
        self,
        task_id: String,
        drive_id: String,
        local_path: String,
        remote_uri: String,
        file_size: u64,
        credential: UploadCredential,
    ) -> bool {
        &&& self.id == credential.session_id
        &&& self.task_id == task_id
        &&& self.drive_id == drive_id
        &&& self.local_path == local_path
        &&& self.remote_uri == remote_uri
        &&& self.file_size == file_size
        &&& self.chunk_size == credential.chunk_size as u64
        &&& self.policy_type == match credential.storage_policy {
            Some(p) => p.policy_type,
            None => PolicyType::Local,
        }
        &&& self.credential == credential
        &&& self.relay == match credential.storage_policy {
            Some(p) => p.relay == Some(true),
            None => false,
        }
        &&& self.chunk_progress@ == Seq::new(
            chunk_count(file_size as nat, self.chunk_size as nat),
            |i: int| ChunkProgress { index: i as usize, loaded: 0, etag: None },
        )
        &&& self.encrypt_metadata == credential.encrypt_metadata
        &&& self.expires_at == credential.expires
        &&& self.created_at == self.updated_at
    }

    /// Whether all but the progress and the time of the last change is as in `other`.
    pub open spec fn same_upload(self, other: UploadSession) -> bool {
        &&& self.id == other.id
        &&& self.task_id == other.task_id
        &&& self.drive_id == other.drive_id
        &&& self.local_path == other.local_path
        &&& self.remote_uri == other.remote_uri
        &&& self.file_size == other.file_size
        &&& self.chunk_size == other.chunk_size
        &&& self.policy_type == other.policy_type
        &&& self.credential == other.credential
        &&& self.relay == other.relay
        &&& self.encrypt_metadata == other.encrypt_metadata
        &&& self.expires_at == other.expires_at
        &&& self.created_at == other.created_at
    }

    /// Where the chunks go: through the server, where it relays, and else to the back
    /// end of the storage policy.
    pub open spec fn sends_to(self) -> PolicyType {
        if self.relay {
            PolicyType::Local
        } else {
            self.policy_type
        }
    }

    /// Whether the session has run out at a time.
    pub open spec fn expired_at(self, now: int) -> bool {
        now >= self.expires_at
    }

    /// Opens a session now.
    pub fn new(
        task_id: String,
        drive_id: String,
        local_path: String,
        remote_uri: String,
        file_size: u64,
        credential: UploadCredential,
    ) -> (r: Self)
        requires
            Self::can_open(file_size, credential.chunk_size as u64),
        ensures
            r.opened(task_id, drive_id, local_path, remote_uri, file_size, credential),
            0 <= r.created_at <= latest_timestamp(),
    {
        let now: i64 = utc_timestamp();
        Self::new_at(task_id, drive_id, local_path, remote_uri, file_size, credential, now)
    }

    /// Opens a session at the time `now`.
    pub fn new_at(
        task_id: String,
        drive_id: String,
        local_path: String,
        remote_uri: String,
        file_size: u64,
        credential: UploadCredential,
        now: i64,
    ) -> (r: Self)
        requires
            Self::can_open(file_size, credential.chunk_size as u64),
        ensures
            r.opened(task_id, drive_id, local_path, remote_uri, file_size, credential),
            r.created_at == now,
    {
        let chunk_size: u64 = credential.chunk_size as u64;
        let num_chunks: usize = Self::calculate_num_chunks(file_size, chunk_size);
        let policy_type: PolicyType = match &credential.storage_policy {
            Some(p) => p.policy_type,
            None => PolicyType::Local,
        };
        let relay: bool = match &credential.storage_policy {
            Some(p) => match p.relay {
                Some(b) => b,
                None => false,
            },
            None => false,
        };
        let mut chunk_progress: Vec<ChunkProgress> = Vec::new();
        let mut i: usize = 0;
        while i < num_chunks
            invariant
                i <= num_chunks,
                chunk_progress@ == Seq::new(
                    i as nat,
                    |j: int| ChunkProgress { index: j as usize, loaded: 0, etag: None },
                ),
            decreases num_chunks - i,
        {
            chunk_progress.push(ChunkProgress::new(i));
            i = i + 1;
        }
        UploadSession {
            id: credential.session_id.clone(),
            task_id,
            drive_id,
            local_path,
            remote_uri,
            file_size,
            chunk_size,
            policy_type,
            relay,
            chunk_progress,
            encrypt_metadata: credential.encrypt_metadata.clone(),
            expires_at: credential.expires,
            created_at: now,
            updated_at: now,
            credential,
        }
    }

    /// The number of chunks of a file.
    pub fn calculate_num_chunks(file_size: u64, chunk_size: u64) -> (r: usize)
        requires
            Self::can_open(file_size, chunk_size),
        ensures
            r == chunk_count(file_size as nat, chunk_size as nat),
    {
        if file_size == 0 || chunk_size == 0 {
            return 1;
        }
        ((file_size + chunk_size - 1) / chunk_size) as usize
    }

    /// The server's name for the session.
    pub fn session_id(&self) -> (r: &str)
        ensures
            r@ == self.credential.session_id@,
    {
        self.credential.session_id.as_str()
    }

    /// What the server handed out.
    pub fn credential(&self) -> (r: &UploadCredential)
        ensures
            *r == self.credential,
    {
        &self.credential
    }

    /// The back end that the storage policy names.
    pub fn policy_type(&self) -> (r: PolicyType)
        ensures
            r == self.policy_type,
    {
        self.policy_type
    }

    /// Whether the chunks go through the server.
    pub fn is_relay(&self) -> (r: bool)
        ensures
            r == self.relay,
    {
        self.relay
    }

    /// Whether the session has run out by now. The clock decides, unless the session
    /// ends by the first time, or after the last, that the clock can show.
    pub fn is_expired(&self) -> (r: bool)
        ensures
            self.expires_at <= 0 ==> r,
            self.expires_at > latest_timestamp() ==> !r,
    {
        let now: i64 = utc_timestamp();
        self.is_expired_at(now)
    }

    /// Whether the session has run out at the time `now`.
    pub fn is_expired_at(&self, now: i64) -> (r: bool)
        ensures
            r == (now >= self.expires_at),
            r == self.expired_at(now as int),
    {
        now >= self.expires_at
    }

    /// The number of chunks.
    pub fn num_chunks(&self) -> (r: usize)
        ensures
            r == self.chunk_progress@.len(),
    {
        self.chunk_progress.len()
    }

    /// The chunks that have not arrived, in their order.
    pub fn pending_chunks(&self) -> (r: Vec<usize>)
        ensures
            r@ == pending_of(self.chunk_progress@),
    {
        let ghost all = self.chunk_progress@;
        let ghost open = |c: ChunkProgress| !c.complete();
        let ghost number = |c: ChunkProgress| c.index;
        let mut r: Vec<usize> = Vec::new();
        let mut i: usize = 0;
        proof {
            reveal(Seq::filter);
            assert(all.take(0).filter(open).map_values(number) =~= r@);
        }
        while i < self.chunk_progress.len()
            invariant
                all == self.chunk_progress@,
                i <= all.len(),
                open == (|c: ChunkProgress| !c.complete()),
                number == (|c: ChunkProgress| c.index),
                r@ == all.take(i as int).filter(open).map_values(number),
            decreases all.len() - i,
        {
            let ghost before = all.take(i as int).filter(open);
            proof {
                reveal(Seq::filter);
                assert(all.take(i + 1).drop_last() =~= all.take(i as int));
                assert(all.take(i + 1).last() == all[i as int]);
                assert(before.push(all[i as int]).map_values(number) =~= before.map_values(
                    number,
                ).push(all[i as int].index));
            }
            if !self.chunk_progress[i].is_complete() {
                assert(open(all[i as int]));
                r.push(self.chunk_progress[i].index);
            }
            i = i + 1;
        }
        assert(all.take(all.len() as int) =~= all);
        r
    }

    /// Whether every chunk has arrived.
    pub fn all_chunks_complete(&self) -> (r: bool)
        ensures
            r == forall|i: int|
                0 <= i < self.chunk_progress@.len() ==> (
                #[trigger] self.chunk_progress@[i]).complete(),
    {
        let mut i: usize = 0;
        while i < self.chunk_progress.len()
            invariant
                i <= self.chunk_progress@.len(),
                forall|j: int| 0 <= j < i ==> (#[trigger] self.chunk_progress@[j]).complete(),
            decreases self.chunk_progress@.len() - i,
        {
            if !self.chunk_progress[i].is_complete() {
                return false;
            }
            i = i + 1;
        }
        true
    }

    /// The bytes of a chunk.
    pub fn chunk_size_for(&self, chunk_index: usize) -> (r: u64)
        requires
            self.chunk_size == 0 || chunk_index * self.chunk_size <= u64::MAX,
        ensures
            r == chunk_len(self.file_size as nat, self.chunk_size as nat, chunk_index as nat),
    {
        if self.chunk_size == 0 {
            return self.file_size;
        }
        let start: u64 = chunk_index as u64 * self.chunk_size;
        let remaining: u64 = if self.file_size > start {
            self.file_size - start
        } else {
            0
        };
        if remaining < self.chunk_size {
            remaining
        } else {
            self.chunk_size
        }
    }

    /// Where a chunk starts, and where it ends.
    pub fn chunk_range(&self, chunk_index: usize) -> (r: (u64, u64))
        requires
            self.chunk_size == 0 || chunk_index * self.chunk_size <= u64::MAX,
        ensures
            r.0 == chunk_start(self.chunk_size as nat, chunk_index as nat),
            r.1 == r.0 + chunk_len(
                self.file_size as nat,
                self.chunk_size as nat,
                chunk_index as nat,
            ),
    {
        if self.chunk_size == 0 {
            return (0, self.file_size);
        }
        let start: u64 = chunk_index as u64 * self.chunk_size;
        let size: u64 = self.chunk_size_for(chunk_index);
        (start, start + size)
    }

    /// Notes now how much of a chunk has arrived.
    pub fn update_chunk_progress(&mut self, chunk_index: usize, loaded: u64, etag: Option<String>)
        ensures
            final(self).same_upload(*old(self)),
            final(self).chunk_progress@ == with_noted(
                old(self).chunk_progress@,
                chunk_index,
                loaded,
                etag,
            ),
            chunk_index < old(self).chunk_progress@.len() ==> final(self).chunk_progress@
                == old(self).chunk_progress@.update(
                chunk_index as int,
                with_progress(old(self).chunk_progress@[chunk_index as int], loaded, etag),
            ) && 0 <= final(self).updated_at <= latest_timestamp(),
            chunk_index >= old(self).chunk_progress@.len() ==> *final(self) == *old(self),
    {
        let now: i64 = utc_timestamp();
        self.update_chunk_progress_at(chunk_index, loaded, etag, now);
    }

    /// Notes at the time `now` how much of a chunk has arrived.
    pub fn update_chunk_progress_at(
        &mut self,
        chunk_index: usize,
        loaded: u64,
        etag: Option<String>,
        now: i64,
    )
        ensures
            final(self).same_upload(*old(self)),
            final(self).chunk_progress@ == with_noted(
                old(self).chunk_progress@,
                chunk_index,
                loaded,
                etag,
            ),
            chunk_index < old(self).chunk_progress@.len() ==> final(self).chunk_progress@
                == old(self).chunk_progress@.update(
                chunk_index as int,
                with_progress(old(self).chunk_progress@[chunk_index as int], loaded, etag),
            ) && final(self).updated_at == now,
            chunk_index >= old(self).chunk_progress@.len() ==> *final(self) == *old(self),
    {
        if chunk_index < self.chunk_progress.len() {
            let tag: Option<String> = match etag {
                Some(t) => Some(t),
                None => self.chunk_progress[chunk_index].etag.clone(),
            };
            let index: usize = self.chunk_progress[chunk_index].index;
            self.chunk_progress[chunk_index] = ChunkProgress { index, loaded, etag: tag };
            self.updated_at = now;
        }
    }

    /// Notes now that a chunk has arrived.
    pub fn complete_chunk(&mut self, chunk_index: usize, etag: Option<String>)
        requires
            chunk_index < old(self).chunk_progress@.len() ==> old(self).chunk_size == 0
                || chunk_index * old(self).chunk_size <= u64::MAX,
        ensures
            final(self).same_upload(*old(self)),
            final(self).chunk_progress@ == with_complete(
                old(self).chunk_progress@,
                old(self).file_size,
                old(self).chunk_size,
                chunk_index,
                etag,
            ),
            chunk_index < old(self).chunk_progress@.len() ==> 0 <= final(self).updated_at
                <= latest_timestamp(),
            chunk_index >= old(self).chunk_progress@.len() ==> *final(self) == *old(self),
    {
        let now: i64 = utc_timestamp();
        self.complete_chunk_at(chunk_index, etag, now);
    }

    /// Notes at the time `now` that a chunk has arrived.
    pub fn complete_chunk_at(&mut self, chunk_index: usize, etag: Option<String>, now: i64)
        requires
            chunk_index < old(self).chunk_progress@.len() ==> old(self).chunk_size == 0
                || chunk_index * old(self).chunk_size <= u64::MAX,
        ensures
            final(self).same_upload(*old(self)),
            final(self).chunk_progress@ == with_complete(
                old(self).chunk_progress@,
                old(self).file_size,
                old(self).chunk_size,
                chunk_index,
                etag,
            ),
            chunk_index < old(self).chunk_progress@.len() ==> final(self).updated_at == now,
            chunk_index >= old(self).chunk_progress@.len() ==> *final(self) == *old(self),
    {
        if chunk_index < self.chunk_progress.len() {
            let size: u64 = self.chunk_size_for(chunk_index);
            self.update_chunk_progress_at(chunk_index, size, etag, now);
        }
    }

    /// The bytes that have arrived.
    pub fn total_uploaded(&self) -> (r: u64)
        requires
            loaded_sum(self.chunk_progress@) <= u64::MAX,
        ensures
            r == loaded_sum(self.chunk_progress@),
    {
        let ghost all = self.chunk_progress@;
        let mut sum: u64 = 0;
        let mut i: usize = 0;
        assert(all.take(all.len() as int) =~= all);
        while i < self.chunk_progress.len()
            invariant
                all == self.chunk_progress@,
                i <= all.len(),
                loaded_sum(all) <= u64::MAX,
                sum == loaded_sum(all.take(i as int)),
            decreases all.len() - i,
        {
            proof {
                assert(all.take(i + 1).drop_last() =~= all.take(i as int));
                lemma_loaded_sum_grows(all, i + 1);
            }
            sum = sum + self.chunk_progress[i].loaded;
            i = i + 1;
        }
        assert(all.take(i as int) =~= all);
        sum
    }

    /// The share of the file that has arrived, as a numerator and a denominator.
    pub open spec fn share(self) -> (nat, nat) {
        if self.file_size == 0 {
            (1, 1)
        } else {
            (loaded_sum(self.chunk_progress@), self.file_size as nat)
        }
    }

    /// The share of the file that has arrived, as a numerator and a denominator:
    /// the whole where the file is empty.
    pub fn progress(&self) -> (r: (u64, u64))
        requires
            self.file_size == 0 || loaded_sum(self.chunk_progress@) <= u64::MAX,
        ensures
            (r.0 as nat, r.1 as nat) == self.share(),
            self.file_size == 0 ==> r == (1u64, 1u64),
            self.file_size > 0 ==> r.0 == loaded_sum(self.chunk_progress@) && r.1
                == self.file_size,
    {
        if self.file_size == 0 {
            return (1, 1);
        }
        (self.total_uploaded(), self.file_size)
    }

    /// Where a chunk is sent to, where the server gave each its own place.
    pub fn upload_url_for_chunk(&self, chunk_index: usize) -> (r: Option<&str>)
        ensures
            opt_str(r) == url_at(self.credential, chunk_index as int),
    {
        match &self.credential.upload_urls {
            Some(urls) => if chunk_index < urls.len() {
                Some(urls[chunk_index].as_str())
            } else {
                None
            },
            None => None,
        }
    }

    /// The first place that the server gave.
    pub fn upload_url(&self) -> (r: Option<&str>)
        ensures
            opt_str(r) == url_at(self.credential, 0),
    {
        match &self.credential.upload_urls {
            Some(urls) => if urls.len() > 0 {
                Some(urls[0].as_str())
            } else {
                None
            },
            None => None,
        }
    }

    /// Where the upload is completed: nowhere, where the server named no place.
    pub fn complete_url(&self) -> (r: &str)
        ensures
            r@ == match self.credential.complete_url {
                Some(url) => url@,
                None => Seq::empty(),
            },
    {
        match &self.credential.complete_url {
            Some(url) => url.as_str(),
            None => {
                proof {
                    reveal_strlit("");
                    assert(""@ =~= Seq::empty());
                }
                ""
            },
        }
    }

    /// The secret that the server calls back with.
    pub fn callback_secret(&self) -> (r: &str)
        ensures
            r@ == self.credential.callback_secret@,
    {
        self.credential.callback_secret.as_str()
    }

    /// The credential of the back end.
    pub fn credential_string(&self) -> (r: &str)
        ensures
            r@ == self.credential.credential@,
    {
        self.credential.credential.as_str()
    }

    /// The upload policy of the back end.
    pub fn upload_policy(&self) -> (r: Option<&str>)
        ensures
            opt_str(r) == opt_text(self.credential.upload_policy),
    {
        match &self.credential.upload_policy {
            Some(s) => Some(s.as_str()),
            None => None,
        }
    }

    /// The type that the server gives the file.
    pub fn mime_type(&self) -> (r: Option<&str>)
        ensures
            opt_str(r) == opt_text(self.credential.mime_type),
    {
        match &self.credential.mime_type {
            Some(s) => Some(s.as_str()),
            None => None,
        }
    }

    /// Whether the file is encrypted before it is sent.
    pub fn is_encrypted(&self) -> (r: bool)
        ensures
            r == (self.encrypt_metadata is Some),
    {
        self.encrypt_metadata.is_some()
    }

    /// Whether the back end takes what is encrypted on the way.
    pub fn supports_streaming_encryption(&self) -> (r: bool)
        ensures
            r == match self.credential.storage_policy {
                Some(p) => p.streaming_encryption == Some(true),
                None => false,
            },
    {
        match &self.credential.storage_policy {
            Some(p) => match p.streaming_encryption {
                Some(b) => b,
                None => false,
            },
            None => false,
        }
    }

    /// How many chunks may be on their way at once: at least one.
    pub fn chunk_concurrency(&self) -> (r: usize)
        ensures
            r == match self.credential.storage_policy {
                Some(p) => match p.chunk_concurrency {
                    Some(c) => if c > 1 {
                        c as int
                    } else {
                        1
                    },
                    None => 1,
                },
                None => 1,
            },
    {
        match &self.credential.storage_policy {
            Some(p) => match p.chunk_concurrency {
                Some(c) => if c > 1 {
                    c as usize
                } else {
                    1
                },
                None => 1,
            },
            None => 1,
        }
    }
}

/// The place that the server gave for the chunk `index`.
pub open spec fn url_at(credential: UploadCredential, index: int) -> Option<Seq<char>> {
    match credential.upload_urls {
        Some(urls) => if 0 <= index < urls@.len() {
            Some(urls@[index]@)
        } else {
            None
        },
        None => None,
    }
}

proof fn lemma_loaded_sum_grows(progress: Seq<ChunkProgress>, n: int)
    requires
        0 <= n <= progress.len(),
    ensures
        loaded_sum(progress.take(n)) <= loaded_sum(progress),
    decreases progress.len(),
{
    if n == progress.len() {
        assert(progress.take(n) =~= progress);
    } else {
        lemma_loaded_sum_grows(progress.drop_last(), n);
        assert(progress.drop_last().take(n) =~= progress.take(n));
    }
}

}
