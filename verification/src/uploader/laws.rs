//! What holds of a cut file as a whole.

use crate::uploader::chunk::sent_bytes;
use crate::uploader::chunk::ChunkInfo;
use crate::uploader::chunk::ChunkProgress;
use crate::uploader::encrypt::encryption_splits;
use crate::uploader::encrypt::EncryptionConfig;
use crate::uploader::pool::arrived;
use crate::uploader::pool::info_of;
use crate::uploader::pool::infos_of;
use crate::uploader::pool::starts_fit;
use crate::uploader::session::chunk_count;
use crate::uploader::session::chunk_len;
use crate::uploader::session::chunk_start;
use crate::uploader::session::loaded_sum;
use crate::uploader::session::pending_of;
use crate::uploader::session::with_complete;
use crate::uploader::session::with_progress;
use vstd::arithmetic::div_mod::*;
use vstd::prelude::*;

verus! {

/// The last chunk of a file that is cut starts before its end, and a further one
/// would not.
proof fn lemma_count_bounds(file_size: nat, chunk_size: nat)
    requires
        file_size > 0,
        chunk_size > 0,
    ensures
        chunk_count(file_size, chunk_size) >= 1,
        (chunk_count(file_size, chunk_size) - 1) * chunk_size < file_size,
        file_size <= chunk_count(file_size, chunk_size) * chunk_size,
{
    let n = chunk_count(file_size, chunk_size);
    let top = file_size + chunk_size - 1;
    lemma_fundamental_div_mod(top as int, chunk_size as int);
    lemma_mod_bound(top as int, chunk_size as int);
    assert(chunk_size * n == n * chunk_size) by (nonlinear_arith);
    assert((n - 1) * chunk_size == n * chunk_size - chunk_size) by (nonlinear_arith);
    assert(n >= 1) by (nonlinear_arith)
        requires
            n * chunk_size >= file_size,
            file_size > 0,
            chunk_size > 0,
    ;
}

/// The chunks of a file lie side by side and cover it: the first starts where the
/// file does, each next one starts where the one before ends, and the last ends
/// where the file does.
pub proof fn chunks_tile_the_file(file_size: nat, chunk_size: nat)
    ensures
        chunk_start(chunk_size, 0) == 0,
        forall|i: nat|
            i + 1 < chunk_count(file_size, chunk_size) ==> #[trigger] chunk_start(chunk_size, i)
                + chunk_len(file_size, chunk_size, i) == chunk_start(chunk_size, i + 1),
        ({
            let last = (chunk_count(file_size, chunk_size) - 1) as nat;
            chunk_start(chunk_size, last) + chunk_len(file_size, chunk_size, last) == file_size
        }),
{
    if file_size > 0 && chunk_size > 0 {
        lemma_count_bounds(file_size, chunk_size);
        let n = chunk_count(file_size, chunk_size);
        assert forall|i: nat| i + 1 < n implies #[trigger] chunk_start(chunk_size, i) + chunk_len(
            file_size,
            chunk_size,
            i,
        ) == chunk_start(chunk_size, i + 1) by {
            assert((i + 1) * chunk_size == i * chunk_size + chunk_size) by (nonlinear_arith);
            assert((i + 1) * chunk_size <= (n - 1) * chunk_size) by (nonlinear_arith)
                requires
                    i + 1 <= n - 1,
            ;
        }
        assert(n * chunk_size == (n - 1) * chunk_size + chunk_size) by (nonlinear_arith);
    } else {
        assert(0 * chunk_size == 0);
    }
}

/// Every chunk of a file starts inside it, holds a byte where the file does, and
/// is no larger than a chunk may be.
pub proof fn chunks_lie_in_the_file(file_size: nat, chunk_size: nat, index: nat)
    requires
        index < chunk_count(file_size, chunk_size),
    ensures
        chunk_start(chunk_size, index) + chunk_len(file_size, chunk_size, index) <= file_size,
        file_size > 0 ==> chunk_len(file_size, chunk_size, index) > 0,
        chunk_size > 0 ==> chunk_len(file_size, chunk_size, index) <= chunk_size,
{
    if file_size > 0 && chunk_size > 0 {
        lemma_count_bounds(file_size, chunk_size);
        let n = chunk_count(file_size, chunk_size);
        assert(index * chunk_size <= (n - 1) * chunk_size) by (nonlinear_arith)
            requires
                index <= n - 1,
        ;
    } else {
        assert(index == 0);
        assert(0 * chunk_size == 0);
    }
}

/// The bytes of the first `n` chunks.
pub open spec fn chunk_sum(file_size: nat, chunk_size: nat, n: nat) -> nat
    decreases n,
{
    if n == 0 {
        0
    } else {
        chunk_sum(file_size, chunk_size, (n - 1) as nat) + chunk_len(
            file_size,
            chunk_size,
            (n - 1) as nat,
        )
    }
}

proof fn lemma_chunk_sum_is_start(file_size: nat, chunk_size: nat, n: nat)
    requires
        n < chunk_count(file_size, chunk_size),
    ensures
        chunk_sum(file_size, chunk_size, n) == chunk_start(chunk_size, n),
    decreases n,
{
    chunks_tile_the_file(file_size, chunk_size);
    if n > 0 {
        let m = (n - 1) as nat;
        lemma_chunk_sum_is_start(file_size, chunk_size, m);
        assert(chunk_start(chunk_size, m) + chunk_len(file_size, chunk_size, m) == chunk_start(
            chunk_size,
            m + 1,
        ));
    }
}

/// The sizes of the chunks of a file add up to its size.
pub proof fn chunk_sizes_add_up(file_size: nat, chunk_size: nat)
    ensures
        chunk_sum(file_size, chunk_size, chunk_count(file_size, chunk_size)) == file_size,
{
    chunks_tile_the_file(file_size, chunk_size);
    if file_size > 0 && chunk_size > 0 {
        lemma_count_bounds(file_size, chunk_size);
    }
    let last = (chunk_count(file_size, chunk_size) - 1) as nat;
    lemma_chunk_sum_is_start(file_size, chunk_size, last);
}

/// Whether each chunk stands at the place of its number.
pub open spec fn numbered(progress: Seq<ChunkProgress>) -> bool {
    forall|i: int| 0 <= i < progress.len() ==> (#[trigger] progress[i]).index == i
}

/// Once every chunk has arrived in full, what has arrived is the size of the file.
pub proof fn full_chunks_are_the_whole_file(
    progress: Seq<ChunkProgress>,
    file_size: nat,
    chunk_size: nat,
)
    requires
        progress.len() == chunk_count(file_size, chunk_size),
        forall|i: int|
            0 <= i < progress.len() ==> (#[trigger] progress[i]).loaded == chunk_len(
                file_size,
                chunk_size,
                i as nat,
            ),
    ensures
        loaded_sum(progress) == file_size,
{
    lemma_loaded_sum_of_full(progress, file_size, chunk_size, progress.len());
    assert(progress.take(progress.len() as int) =~= progress);
    chunk_sizes_add_up(file_size, chunk_size);
}

proof fn lemma_loaded_sum_of_full(
    progress: Seq<ChunkProgress>,
    file_size: nat,
    chunk_size: nat,
    n: nat,
)
    requires
        n <= progress.len(),
        forall|i: int|
            0 <= i < progress.len() ==> (#[trigger] progress[i]).loaded == chunk_len(
                file_size,
                chunk_size,
                i as nat,
            ),
    ensures
        loaded_sum(progress.take(n as int)) == chunk_sum(file_size, chunk_size, n),
    decreases n,
{
    if n > 0 {
        let m = (n - 1) as nat;
        lemma_loaded_sum_of_full(progress, file_size, chunk_size, m);
        assert(progress.take(n as int).drop_last() =~= progress.take(m as int));
        assert(progress.take(n as int).last() == progress[m as int]);
    }
}

/// As long as no chunk is noted to hold more than it does, no more has arrived than
/// the file holds. So the bytes can be summed up, and their share is at most the
/// whole.
pub proof fn no_more_arrives_than_the_file_holds(
    progress: Seq<ChunkProgress>,
    file_size: nat,
    chunk_size: nat,
)
    requires
        progress.len() == chunk_count(file_size, chunk_size),
        forall|i: int|
            0 <= i < progress.len() ==> (#[trigger] progress[i]).loaded <= chunk_len(
                file_size,
                chunk_size,
                i as nat,
            ),
    ensures
        loaded_sum(progress) <= file_size,
{
    lemma_loaded_sum_at_most(progress, file_size, chunk_size, progress.len());
    assert(progress.take(progress.len() as int) =~= progress);
    chunk_sizes_add_up(file_size, chunk_size);
}

proof fn lemma_loaded_sum_at_most(
    progress: Seq<ChunkProgress>,
    file_size: nat,
    chunk_size: nat,
    n: nat,
)
    requires
        n <= progress.len(),
        forall|i: int|
            0 <= i < progress.len() ==> (#[trigger] progress[i]).loaded <= chunk_len(
                file_size,
                chunk_size,
                i as nat,
            ),
    ensures
        loaded_sum(progress.take(n as int)) <= chunk_sum(file_size, chunk_size, n),
    decreases n,
{
    if n > 0 {
        let m = (n - 1) as nat;
        lemma_loaded_sum_at_most(progress, file_size, chunk_size, m);
        assert(progress.take(n as int).drop_last() =~= progress.take(m as int));
        assert(progress.take(n as int).last() == progress[m as int]);
    }
}

/// The progress after `complete_chunk` was called for these chunks, one by one.
pub open spec fn after_completions(
    progress: Seq<ChunkProgress>,
    file_size: u64,
    chunk_size: u64,
    calls: Seq<(usize, Option<String>)>,
) -> Seq<ChunkProgress>
    decreases calls.len(),
{
    if calls.len() == 0 {
        progress
    } else {
        with_complete(
            after_completions(progress, file_size, chunk_size, calls.drop_last()),
            file_size,
            chunk_size,
            calls.last().0,
            calls.last().1,
        )
    }
}

/// Whether one of the calls was for a chunk.
pub open spec fn was_called(calls: Seq<(usize, Option<String>)>, index: int) -> bool {
    exists|k: int| 0 <= k < calls.len() && (#[trigger] calls[k]).0 == index
}

/// The bytes of the first `n` chunks, of those among them that were called for.
pub open spec fn called_sum(
    file_size: nat,
    chunk_size: nat,
    calls: Seq<(usize, Option<String>)>,
    n: nat,
) -> nat
    decreases n,
{
    if n == 0 {
        0
    } else {
        called_sum(file_size, chunk_size, calls, (n - 1) as nat) + if was_called(calls, n - 1) {
            chunk_len(file_size, chunk_size, (n - 1) as nat)
        } else {
            0
        }
    }
}

proof fn lemma_after_completions(
    progress: Seq<ChunkProgress>,
    file_size: u64,
    chunk_size: u64,
    calls: Seq<(usize, Option<String>)>,
)
    requires
        progress.len() == chunk_count(file_size as nat, chunk_size as nat),
    ensures
        ({
            let done = after_completions(progress, file_size, chunk_size, calls);
            &&& done.len() == progress.len()
            &&& forall|i: int|
                0 <= i < done.len() ==> (#[trigger] done[i]).loaded == if was_called(calls, i) {
                    chunk_len(file_size as nat, chunk_size as nat, i as nat)
                } else {
                    progress[i].loaded as nat
                }
        }),
    decreases calls.len(),
{
    if calls.len() > 0 {
        let earlier = calls.drop_last();
        lemma_after_completions(progress, file_size, chunk_size, earlier);
        let before = after_completions(progress, file_size, chunk_size, earlier);
        let done = after_completions(progress, file_size, chunk_size, calls);
        assert(calls[calls.len() - 1] == calls.last());
        assert forall|i: int| 0 <= i < done.len() implies (#[trigger] done[i]).loaded
            == if was_called(calls, i) {
            chunk_len(file_size as nat, chunk_size as nat, i as nat)
        } else {
            progress[i].loaded as nat
        } by {
            chunks_lie_in_the_file(file_size as nat, chunk_size as nat, i as nat);
            if calls.last().0 != i {
                assert(done[i] == before[i]);
                if was_called(calls, i) {
                    let k = choose|k: int|
                        0 <= k < calls.len() && (#[trigger] calls[k]).0 == i;
                    assert(earlier[k].0 == i);
                }
                if was_called(earlier, i) {
                    let k = choose|k: int|
                        0 <= k < earlier.len() && (#[trigger] earlier[k]).0 == i;
                    assert(calls[k].0 == i);
                }
            }
        }
    }
}

proof fn lemma_loaded_sum_of_called(
    progress: Seq<ChunkProgress>,
    file_size: nat,
    chunk_size: nat,
    calls: Seq<(usize, Option<String>)>,
    n: nat,
)
    requires
        n <= progress.len(),
        forall|i: int|
            0 <= i < progress.len() ==> (#[trigger] progress[i]).loaded == if was_called(calls, i) {
                chunk_len(file_size, chunk_size, i as nat)
            } else {
                0
            },
    ensures
        loaded_sum(progress.take(n as int)) == called_sum(file_size, chunk_size, calls, n),
    decreases n,
{
    if n > 0 {
        let m = (n - 1) as nat;
        lemma_loaded_sum_of_called(progress, file_size, chunk_size, calls, m);
        assert(progress.take(n as int).drop_last() =~= progress.take(m as int));
        assert(progress.take(n as int).last() == progress[m as int]);
    }
}

/// What has arrived of a session that had nothing, once some of its chunks are
/// complete, is the sum over these chunks, each counted once however often it was
/// called complete; and it is no more than the file holds.
pub proof fn total_is_the_sum_of_complete_chunks(
    progress: Seq<ChunkProgress>,
    file_size: u64,
    chunk_size: u64,
    calls: Seq<(usize, Option<String>)>,
)
    requires
        progress.len() == chunk_count(file_size as nat, chunk_size as nat),
        forall|i: int| 0 <= i < progress.len() ==> (#[trigger] progress[i]).loaded == 0,
    ensures
        loaded_sum(after_completions(progress, file_size, chunk_size, calls)) == called_sum(
            file_size as nat,
            chunk_size as nat,
            calls,
            progress.len(),
        ),
        loaded_sum(after_completions(progress, file_size, chunk_size, calls)) <= file_size,
{
    let done = after_completions(progress, file_size, chunk_size, calls);
    lemma_after_completions(progress, file_size, chunk_size, calls);
    lemma_loaded_sum_of_called(
        done,
        file_size as nat,
        chunk_size as nat,
        calls,
        progress.len(),
    );
    assert(done.take(done.len() as int) =~= done);
    no_more_arrives_than_the_file_holds(done, file_size as nat, chunk_size as nat);
}

/// Whether the numbers go up.
pub open spec fn ascending(numbers: Seq<usize>) -> bool {
    forall|i: int, j: int| 0 <= i < j < numbers.len() ==> numbers[i] < numbers[j]
}

/// The pending chunks are those that have not arrived, each once and in order.
pub proof fn pending_is_what_is_missing(progress: Seq<ChunkProgress>)
    requires
        numbered(progress),
    ensures
        ascending(pending_of(progress)),
        forall|i: usize|
            #![trigger pending_of(progress).contains(i)]
            pending_of(progress).contains(i) <==> i < progress.len() && !progress[
                i as int
            ].complete(),
    decreases progress.len(),
{
    let open = |c: ChunkProgress| !c.complete();
    let number = |c: ChunkProgress| c.index;
    reveal(Seq::filter);
    if progress.len() == 0 {
        assert(pending_of(progress) =~= Seq::<usize>::empty());
    } else {
        let rest = progress.drop_last();
        let last = progress.last();
        pending_is_what_is_missing(rest);
        let p = pending_of(rest);
        assert(last.index == progress.len() - 1);
        if open(last) {
            assert(pending_of(progress) =~= p.push(last.index));
            assert forall|i: int, j: int| 0 <= i < j < pending_of(progress).len() implies
                pending_of(progress)[i] < pending_of(progress)[j] by {
                assert(p.contains(p[i]));
            }
            assert forall|i: usize|
                #![trigger pending_of(progress).contains(i)]
                pending_of(progress).contains(i) <==> i < progress.len() && !progress[
                    i as int
                ].complete() by {
                if pending_of(progress).contains(i) {
                    let k = pending_of(progress).index_of(i);
                    if k < p.len() {
                        assert(p.contains(p[k]));
                        assert(rest[i as int] == progress[i as int]);
                    }
                } else {
                    assert(pending_of(progress)[p.len() as int] == last.index);
                    if i < progress.len() && !progress[i as int].complete() {
                        assert(rest[i as int] == progress[i as int]);
                        assert(p.contains(i));
                        let k = p.index_of(i);
                        assert(pending_of(progress)[k] == i);
                    }
                }
            }
        } else {
            assert(pending_of(progress) =~= p);
            assert forall|i: usize|
                #![trigger pending_of(progress).contains(i)]
                pending_of(progress).contains(i) <==> i < progress.len() && !progress[
                    i as int
                ].complete() by {
                assert(i < rest.len() ==> rest[i as int] == progress[i as int]);
            }
        }
    }
}

/// Nothing is pending exactly when every chunk has arrived.
pub proof fn nothing_pending_means_all_complete(progress: Seq<ChunkProgress>)
    ensures
        pending_of(progress).len() == 0 <==> forall|i: int|
            0 <= i < progress.len() ==> (#[trigger] progress[i]).complete(),
    decreases progress.len(),
{
    reveal(Seq::filter);
    if progress.len() > 0 {
        let rest = progress.drop_last();
        nothing_pending_means_all_complete(rest);
        assert(forall|i: int| 0 <= i < rest.len() ==> #[trigger] rest[i] == progress[i]);
        if progress.last().complete() {
            assert forall|i: int|
                0 <= i < progress.len() && pending_of(rest).len() == 0 implies (
            #[trigger] progress[i]).complete() by {
                if i < rest.len() {
                    assert(rest[i].complete());
                }
            }
        } else {
            assert(!progress[progress.len() - 1].complete());
        }
    }
}

/// Noting progress of one chunk keeps every chunk at its place, and leaves the
/// others as pending or as complete as they were. The chunk itself stays pending
/// only where nothing of it is noted, as with the one chunk of an empty file.
pub proof fn noting_progress_touches_one_chunk(
    progress: Seq<ChunkProgress>,
    index: usize,
    loaded: u64,
    etag: Option<String>,
    other: usize,
)
    requires
        numbered(progress),
        index < progress.len(),
    ensures
        ({
            let noted = progress.update(
                index as int,
                with_progress(progress[index as int], loaded, etag),
            );
            &&& numbered(noted)
            &&& pending_of(noted).contains(index) <==> loaded == 0
            &&& other != index ==> (pending_of(noted).contains(other) <==> pending_of(
                progress,
            ).contains(other))
        }),
{
    let noted = progress.update(index as int, with_progress(progress[index as int], loaded, etag));
    assert(numbered(noted));
    pending_is_what_is_missing(progress);
    pending_is_what_is_missing(noted);
}

/// What is sent of the first `n` chunks of a file, one after the other.
pub open spec fn sent_chunks(
    encryption: Option<EncryptionConfig>,
    file: Seq<u8>,
    chunk_size: nat,
    n: nat,
) -> Seq<u8>
    decreases n,
{
    if n == 0 {
        Seq::empty()
    } else {
        let index = (n - 1) as nat;
        let start = chunk_start(chunk_size, index);
        let end = start + chunk_len(file.len(), chunk_size, index);
        sent_chunks(encryption, file, chunk_size, index) + sent_bytes(
            encryption,
            file.subrange(start as int, end as int),
            start,
        )
    }
}

proof fn lemma_sent_bytes_split(
    encryption: Option<EncryptionConfig>,
    a: Seq<u8>,
    b: Seq<u8>,
    offset: nat,
)
    ensures
        sent_bytes(encryption, a + b, offset) == sent_bytes(encryption, a, offset) + sent_bytes(
            encryption,
            b,
            offset + a.len(),
        ),
{
    if let Some(config) = encryption {
        encryption_splits(config.key(), config.iv(), a, b, offset);
    }
}

proof fn lemma_sent_chunks_prefix(
    encryption: Option<EncryptionConfig>,
    file: Seq<u8>,
    chunk_size: nat,
    n: nat,
)
    requires
        n <= chunk_count(file.len(), chunk_size),
    ensures
        chunk_sum(file.len(), chunk_size, n) <= file.len(),
        sent_chunks(encryption, file, chunk_size, n) == sent_bytes(
            encryption,
            file.take(chunk_sum(file.len(), chunk_size, n) as int),
            0,
        ),
    decreases n,
{
    if n == 0 {
        assert(sent_bytes(encryption, file.take(0), 0) =~= Seq::<u8>::empty());
    } else {
        let index = (n - 1) as nat;
        lemma_sent_chunks_prefix(encryption, file, chunk_size, index);
        lemma_chunk_sum_is_start(file.len(), chunk_size, index);
        chunks_lie_in_the_file(file.len(), chunk_size, index);
        let start = chunk_start(chunk_size, index);
        let end = start + chunk_len(file.len(), chunk_size, index);
        let head = file.take(start as int);
        let part = file.subrange(start as int, end as int);
        assert(file.take(end as int) =~= head + part);
        lemma_sent_bytes_split(encryption, head, part, 0);
    }
}

/// A file that is sent chunk by chunk, each encrypted for where it starts, arrives
/// as the file encrypted at once.
pub proof fn chunks_arrive_as_the_file(
    encryption: Option<EncryptionConfig>,
    file: Seq<u8>,
    chunk_size: nat,
)
    ensures
        sent_chunks(encryption, file, chunk_size, chunk_count(file.len(), chunk_size))
            == sent_bytes(encryption, file, 0),
{
    let n = chunk_count(file.len(), chunk_size);
    lemma_sent_chunks_prefix(encryption, file, chunk_size, n);
    chunk_sizes_add_up(file.len(), chunk_size);
    assert(file.take(file.len() as int) =~= file);
}

/// Whether the progress is that of the chunks of a file: one entry for each, at
/// its place.
pub open spec fn tracks(progress: Seq<ChunkProgress>, file_size: u64, chunk_size: u64) -> bool {
    &&& numbered(progress)
    &&& progress.len() == chunk_count(file_size as nat, chunk_size as nat)
}

/// The progress that a session opens with tracks its file, and so does what
/// becomes of it when progress is noted or a chunk arrives.
pub proof fn sessions_track_their_file(
    progress: Seq<ChunkProgress>,
    file_size: u64,
    chunk_size: u64,
    index: usize,
    loaded: u64,
    etag: Option<String>,
    chunk: ChunkInfo,
)
    requires
        chunk_count(file_size as nat, chunk_size as nat) <= usize::MAX,
        tracks(progress, file_size, chunk_size),
    ensures
        tracks(
            Seq::new(
                chunk_count(file_size as nat, chunk_size as nat),
                |i: int| ChunkProgress { index: i as usize, loaded: 0, etag: None },
            ),
            file_size,
            chunk_size,
        ),
        index < progress.len() ==> tracks(
            progress.update(index as int, with_progress(progress[index as int], loaded, etag)),
            file_size,
            chunk_size,
        ),
        tracks(arrived(progress, chunk, etag), file_size, chunk_size),
{
}

/// The places of all chunks that a session tracks can be told.
pub proof fn tracked_starts_fit(progress: Seq<ChunkProgress>, file_size: u64, chunk_size: u64)
    requires
        tracks(progress, file_size, chunk_size),
    ensures
        starts_fit(chunk_size, pending_of(progress)),
{
    let pending = pending_of(progress);
    pending_is_what_is_missing(progress);
    assert forall|k: int| 0 <= k < pending.len() implies chunk_size == 0 || #[trigger] pending[k]
        * chunk_size <= u64::MAX by {
        assert(pending.contains(pending[k]));
        chunks_lie_in_the_file(file_size as nat, chunk_size as nat, pending[k] as nat);
    }
}

/// The progress after the chunks of `arrivals` have arrived, one by one, each
/// under its tag.
pub open spec fn after_arrivals(
    progress: Seq<ChunkProgress>,
    arrivals: Seq<(ChunkInfo, Option<String>)>,
) -> Seq<ChunkProgress>
    decreases arrivals.len(),
{
    if arrivals.len() == 0 {
        progress
    } else {
        arrived(
            after_arrivals(progress, arrivals.drop_last()),
            arrivals.last().0,
            arrivals.last().1,
        )
    }
}

proof fn lemma_after_arrivals(
    progress: Seq<ChunkProgress>,
    arrivals: Seq<(ChunkInfo, Option<String>)>,
    file_size: u64,
    chunk_size: u64,
)
    requires
        tracks(progress, file_size, chunk_size),
        forall|k: int|
            0 <= k < arrivals.len() ==> (#[trigger] arrivals[k]).0 == info_of(
                file_size,
                chunk_size,
                arrivals[k].0.index,
            ),
        forall|i: int|
            0 <= i < progress.len() && (#[trigger] progress[i]).complete() ==> progress[i].loaded
                == chunk_len(file_size as nat, chunk_size as nat, i as nat),
    ensures
        ({
            let done = after_arrivals(progress, arrivals);
            &&& tracks(done, file_size, chunk_size)
            &&& forall|i: int|
                0 <= i < done.len() && (progress[i].complete() || exists|k: int|
                    0 <= k < arrivals.len() && (#[trigger] arrivals[k]).0.index == i)
                    ==> (#[trigger] done[i]).loaded == chunk_len(
                    file_size as nat,
                    chunk_size as nat,
                    i as nat,
                )
        }),
    decreases arrivals.len(),
{
    if arrivals.len() > 0 {
        let earlier = arrivals.drop_last();
        let chunk = arrivals.last().0;
        assert forall|k: int| 0 <= k < earlier.len() implies (#[trigger] earlier[k]).0 == info_of(
            file_size,
            chunk_size,
            earlier[k].0.index,
        ) by {
            assert(earlier[k] == arrivals[k]);
        }
        lemma_after_arrivals(progress, earlier, file_size, chunk_size);
        let before = after_arrivals(progress, earlier);
        let done = after_arrivals(progress, arrivals);
        assert(arrivals[arrivals.len() - 1] == arrivals.last());
        assert forall|i: int|
            0 <= i < done.len() && (progress[i].complete() || exists|k: int|
                0 <= k < arrivals.len() && (#[trigger] arrivals[k]).0.index == i) implies (
        #[trigger] done[i]).loaded == chunk_len(
            file_size as nat,
            chunk_size as nat,
            i as nat,
        ) by {
            if chunk.index == i {
                chunks_lie_in_the_file(file_size as nat, chunk_size as nat, i as nat);
            } else {
                assert(done[i] == before[i]);
                if !progress[i].complete() {
                    let k = choose|k: int|
                        0 <= k < arrivals.len() && (#[trigger] arrivals[k]).0.index == i;
                    assert(earlier[k] == arrivals[k]);
                }
            }
        }
    }
}

/// Once every chunk that was pending has arrived, in whatever order, under
/// whatever tags and however often, the whole file has; and then nothing is
/// pending, unless the file is empty.
pub proof fn arrivals_complete_the_upload(
    progress: Seq<ChunkProgress>,
    arrivals: Seq<(ChunkInfo, Option<String>)>,
    file_size: u64,
    chunk_size: u64,
)
    requires
        tracks(progress, file_size, chunk_size),
        forall|i: int|
            0 <= i < progress.len() && (#[trigger] progress[i]).complete() ==> progress[i].loaded
                == chunk_len(file_size as nat, chunk_size as nat, i as nat),
        forall|k: int|
            0 <= k < arrivals.len() ==> infos_of(
                file_size,
                chunk_size,
                pending_of(progress),
            ).contains((#[trigger] arrivals[k]).0),
        forall|chunk: ChunkInfo|
            infos_of(file_size, chunk_size, pending_of(progress)).contains(chunk) ==> exists|
                k: int,
            |
                0 <= k < arrivals.len() && (#[trigger] arrivals[k]).0 == chunk,
    ensures
        loaded_sum(after_arrivals(progress, arrivals)) == file_size,
        file_size > 0 ==> pending_of(after_arrivals(progress, arrivals)).len() == 0,
{
    let pending = pending_of(progress);
    let infos = infos_of(file_size, chunk_size, pending);
    let done = after_arrivals(progress, arrivals);
    pending_is_what_is_missing(progress);
    assert forall|k: int| 0 <= k < arrivals.len() implies (#[trigger] arrivals[k]).0 == info_of(
        file_size,
        chunk_size,
        arrivals[k].0.index,
    ) by {
        let j = infos.index_of(arrivals[k].0);
        assert(infos[j] == info_of(file_size, chunk_size, pending[j]));
    }
    lemma_after_arrivals(progress, arrivals, file_size, chunk_size);
    assert forall|i: int| 0 <= i < done.len() implies (#[trigger] done[i]).loaded == chunk_len(
        file_size as nat,
        chunk_size as nat,
        i as nat,
    ) by {
        if !progress[i].complete() {
            let n = progress[i].index;
            assert(pending.contains(n));
            let j = pending.index_of(n);
            assert(infos[j] == info_of(file_size, chunk_size, n));
            assert(infos.contains(infos[j]));
            let k = choose|k: int|
                0 <= k < arrivals.len() && (#[trigger] arrivals[k]).0 == infos[j];
            assert(arrivals[k].0.index == i);
        }
    }
    full_chunks_are_the_whole_file(done, file_size as nat, chunk_size as nat);
    if file_size > 0 {
        assert forall|i: int| 0 <= i < done.len() implies (#[trigger] done[i]).complete() by {
            chunks_lie_in_the_file(file_size as nat, chunk_size as nat, i as nat);
        }
        nothing_pending_means_all_complete(done);
    }
}

/// A file is cut into as many chunks as it takes, each of which but the last is full.
/// One that is empty or is not cut is one chunk.
pub proof fn chunks_are_full_but_the_last(file_size: nat, chunk_size: nat, index: nat)
    requires
        index < chunk_count(file_size, chunk_size),
    ensures
        file_size == 0 || chunk_size == 0 ==> {
            &&& chunk_count(file_size, chunk_size) == 1
            &&& chunk_start(chunk_size, index) == 0
            &&& chunk_len(file_size, chunk_size, index) == file_size
        },
        file_size > 0 && chunk_size > 0 ==> {
            let n = chunk_count(file_size, chunk_size);
            &&& (n - 1) * chunk_size < file_size <= n * chunk_size
            &&& chunk_start(chunk_size, index) == index * chunk_size
            &&& index + 1 < n ==> chunk_len(file_size, chunk_size, index) == chunk_size
            &&& index + 1 == n ==> chunk_len(file_size, chunk_size, index) == file_size - index
                * chunk_size
        },
{
    if file_size > 0 && chunk_size > 0 {
        lemma_count_bounds(file_size, chunk_size);
        let n = chunk_count(file_size, chunk_size);
        if index + 1 < n {
            assert((index + 1) * chunk_size <= (n - 1) * chunk_size) by (nonlinear_arith)
                requires
                    index + 1 <= n - 1,
            ;
            assert((index + 1) * chunk_size == index * chunk_size + chunk_size)
                by (nonlinear_arith);
        } else {
            assert(n * chunk_size == (n - 1) * chunk_size + chunk_size) by (nonlinear_arith);
        }
    } else {
        assert(index == 0);
        assert(0 * chunk_size == 0);
    }
}

/// A chunk is pending exactly as long as no byte of it has arrived.
pub proof fn pending_chunks_hold_nothing(progress: Seq<ChunkProgress>, index: usize)
    requires
        numbered(progress),
    ensures
        pending_of(progress).contains(index) <==> index < progress.len()
            && progress[index as int].loaded == 0,
{
    pending_is_what_is_missing(progress);
}

/// The bytes that have arrived are counted chunk by chunk: one chunk that changes changes
/// them by as much as itself, and where no chunk has any there are none.
pub proof fn total_changes_with_each_chunk(
    progress: Seq<ChunkProgress>,
    index: int,
    chunk: ChunkProgress,
)
    requires
        0 <= index < progress.len(),
    ensures
        loaded_sum(progress.update(index, chunk)) + progress[index].loaded == loaded_sum(progress)
            + chunk.loaded,
        loaded_sum(Seq::<ChunkProgress>::empty()) == 0,
        (forall|i: int| 0 <= i < progress.len() ==> (#[trigger] progress[i]).loaded == 0)
            ==> loaded_sum(progress) == 0,
    decreases progress.len(),
{
    let rest = progress.drop_last();
    let changed = progress.update(index, chunk);
    if index == progress.len() - 1 {
        assert(changed.drop_last() =~= rest);
    } else {
        total_changes_with_each_chunk(rest, index, chunk);
        assert(changed.drop_last() =~= rest.update(index, chunk));
    }
    if forall|i: int| 0 <= i < progress.len() ==> (#[trigger] progress[i]).loaded == 0 {
        lemma_nothing_loaded(progress);
    }
}

proof fn lemma_nothing_loaded(progress: Seq<ChunkProgress>)
    requires
        forall|i: int| 0 <= i < progress.len() ==> (#[trigger] progress[i]).loaded == 0,
    ensures
        loaded_sum(progress) == 0,
    decreases progress.len(),
{
    if progress.len() > 0 {
        let rest = progress.drop_last();
        assert forall|i: int| 0 <= i < rest.len() implies (#[trigger] rest[i]).loaded == 0 by {
            assert(rest[i] == progress[i]);
        }
        lemma_nothing_loaded(rest);
        assert(progress.last() == progress[progress.len() - 1]);
    }
}

/// What is noted of a chunk is kept as it was told: the bytes, and the tag if there is
/// one; without one the old tag stays. Completing a chunk notes all the bytes that it
/// has. No other chunk changes, and a number that no chunk has changes nothing.
pub proof fn progress_is_kept_as_told(
    progress: Seq<ChunkProgress>,
    file_size: u64,
    chunk_size: u64,
    index: usize,
    loaded: u64,
    etag: Option<String>,
    other: int,
)
    requires
        progress.len() == chunk_count(file_size as nat, chunk_size as nat),
        0 <= other < progress.len(),
    ensures
        ({
            let done = with_complete(progress, file_size, chunk_size, index, etag);
            &&& done.len() == progress.len()
            &&& other != index ==> done[other] == progress[other]
            &&& other == index ==> {
                &&& done[other].index == progress[other].index
                &&& done[other].loaded == chunk_len(
                    file_size as nat,
                    chunk_size as nat,
                    index as nat,
                )
                &&& done[other].etag == if etag is Some {
                    etag
                } else {
                    progress[other].etag
                }
            }
        }),
        ({
            let noted = crate::uploader::session::with_noted(progress, index, loaded, etag);
            &&& noted.len() == progress.len()
            &&& other != index ==> noted[other] == progress[other]
            &&& other == index ==> {
                &&& noted[other].index == progress[other].index
                &&& noted[other].loaded == loaded
                &&& etag is Some ==> noted[other].etag == etag
                &&& etag is None ==> noted[other].etag == progress[other].etag
            }
        }),
{
    if index < progress.len() {
        chunks_lie_in_the_file(file_size as nat, chunk_size as nat, index as nat);
    }
}

/// A chunk that arrives is noted with its bytes and its tag, also where it has none. No
/// other chunk changes.
pub proof fn arrival_is_noted_with_its_tag(
    progress: Seq<ChunkProgress>,
    chunk: ChunkInfo,
    etag: Option<String>,
    other: int,
)
    requires
        0 <= other < progress.len(),
    ensures
        arrived(progress, chunk, etag).len() == progress.len(),
        other != chunk.index ==> arrived(progress, chunk, etag)[other] == progress[other],
        other == chunk.index ==> {
            let noted = arrived(progress, chunk, etag)[other];
            noted.index == progress[other].index && noted.loaded == chunk.size && noted.etag == etag
        },
{
}

/// Every chunk is either counted as arrived or pending.
pub proof fn chunks_are_counted_once(progress: Seq<ChunkProgress>)
    ensures
        crate::uploader::pool::arrived_count(progress) + pending_of(progress).len()
            == progress.len(),
    decreases progress.len(),
{
    reveal(Seq::filter);
    if progress.len() > 0 {
        chunks_are_counted_once(progress.drop_last());
    }
}

/// Sessions of the same upload differ in their progress and the time of their last
/// change alone.
pub proof fn same_upload_keeps_all_but_the_progress(
    one: crate::uploader::session::UploadSession,
    other: crate::uploader::session::UploadSession,
)
    requires
        one.same_upload(other),
    ensures
        one == (crate::uploader::session::UploadSession {
            chunk_progress: one.chunk_progress,
            updated_at: one.updated_at,
            ..other
        }),
{
}

/// The share of a file that has arrived grows by the bytes of each chunk that completes,
/// over the size of the file; and a file without bytes has arrived as a whole.
pub proof fn share_grows_with_each_chunk(
    before: crate::uploader::session::UploadSession,
    after: crate::uploader::session::UploadSession,
    index: usize,
    etag: Option<String>,
)
    requires
        tracks(before.chunk_progress@, before.file_size, before.chunk_size),
        after.same_upload(before),
        index < before.chunk_progress@.len(),
        after.chunk_progress@ == with_complete(
            before.chunk_progress@,
            before.file_size,
            before.chunk_size,
            index,
            etag,
        ),
    ensures
        before.file_size == 0 ==> after.share() == (1nat, 1nat),
        before.file_size > 0 ==> {
            &&& after.share().1 == before.file_size
            &&& before.share().1 == before.file_size
            &&& after.share().0 + before.chunk_progress@[index as int].loaded == before.share().0
                + chunk_len(before.file_size as nat, before.chunk_size as nat, index as nat)
        },
{
    let progress = before.chunk_progress@;
    progress_is_kept_as_told(
        progress,
        before.file_size,
        before.chunk_size,
        index,
        0,
        etag,
        index as int,
    );
    total_changes_with_each_chunk(progress, index as int, after.chunk_progress@[index as int]);
    assert(after.chunk_progress@ =~= progress.update(
        index as int,
        after.chunk_progress@[index as int],
    ));
}

}
