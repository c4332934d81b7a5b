//! The pool of workers that send the chunks of one file.
//!
//! The state is shared by workers that never wait for one another's locks: the
//! callers say with `acquired` whether the queue, or the place of the error, was
//! free when a worker reached for it.

use crate::api::models::EncryptMetadata;
use crate::uploader::chunk::ChunkInfo;
use crate::uploader::chunk::ChunkProgress;
use crate::uploader::clock::latest_timestamp;
use crate::uploader::clock::utc_timestamp;
use crate::uploader::encrypt::base64_decoding;
use crate::uploader::encrypt::config_parts;
use crate::uploader::encrypt::EncryptionConfig;
use crate::uploader::error::UploadError;
use crate::uploader::error::UploadResult;
use crate::uploader::progress::wrap64;
use crate::uploader::progress::ProgressTracker;
use crate::uploader::session::chunk_len;
use crate::uploader::session::chunk_start;
use crate::uploader::session::loaded_sum;
use crate::uploader::session::pending_of;
use crate::uploader::session::UploadSession;
use vstd::prelude::*;
use vstd::string::*;

verus! {

/// A count of workers with one more. It wraps.
pub open spec fn one_more(workers: usize) -> int {
    if workers == usize::MAX {
        0
    } else {
        workers + 1
    }
}

/// A count of workers with one less. It wraps.
pub open spec fn one_less(workers: usize) -> int {
    if workers == 0 {
        usize::MAX as int
    } else {
        workers - 1
    }
}

/// A count of workers with `n` more, where `n` itself can be counted. It wraps.
pub open spec fn many_more(workers: usize, n: nat) -> int {
    if workers + n > usize::MAX {
        workers + n - usize::MAX - 1
    } else {
        workers + n
    }
}

/// What the workers of one upload share of its course.
pub struct UploadPoolState {
    pub pending_chunks: Vec<ChunkInfo>,
    pub error: Option<String>,
    pub has_error: bool,
    pub active_workers: usize,
}

impl UploadPoolState {
    /// A pool in which no worker has started.
    pub fn new(chunks: Vec<ChunkInfo>) -> (r: Self)
        ensures
            r.pending_chunks == chunks,
            r.error is None,
            !r.has_error,
            r.active_workers == 0,
    {
        UploadPoolState { pending_chunks: chunks, error: None, has_error: false, active_workers: 0 }
    }

    /// A worker starts.
    pub fn worker_started(&mut self)
        ensures
            final(self).active_workers == one_more(old(self).active_workers),
            final(self).pending_chunks == old(self).pending_chunks,
            final(self).error == old(self).error,
            final(self).has_error == old(self).has_error,
    {
        self.active_workers = self.active_workers.wrapping_add(1);
    }

    /// Takes the first chunk that waits, where the queue was free.
    pub fn next_chunk(&mut self, acquired: bool) -> (r: Option<ChunkInfo>)
        ensures
            r == next_of(old(self).pending_chunks@, acquired),
            final(self).pending_chunks@ == rest_of(old(self).pending_chunks@, acquired),
            final(self).error == old(self).error,
            final(self).has_error == old(self).has_error,
            final(self).active_workers == old(self).active_workers,
    {
        if acquired {
            if !self.pending_chunks.is_empty() {
                let ghost queue = self.pending_chunks@;
                let chunk: ChunkInfo = self.pending_chunks.remove(0);
                assert(self.pending_chunks@ =~= queue.drop_first());
                return Some(chunk);
            }
        }
        None
    }

    /// Whether a chunk has failed.
    pub fn has_error(&self) -> (r: bool)
        ensures
            r == self.has_error,
    {
        self.has_error
    }

    /// A chunk has failed. The first cause to find its place free is kept.
    pub fn set_error(&mut self, msg: String, acquired: bool)
        ensures
            final(self).has_error,
            final(self).error == kept_error(old(self).error, msg, acquired),
            final(self).pending_chunks == old(self).pending_chunks,
            final(self).active_workers == old(self).active_workers,
    {
        self.has_error = true;
        if acquired {
            if self.error.is_none() {
                self.error = Some(msg);
            }
        }
    }

    /// The cause of the failure, where its place was free.
    pub fn get_error(&self, acquired: bool) -> (r: Option<String>)
        ensures
            r == if acquired {
                self.error
            } else {
                None
            },
    {
        if acquired {
            self.error.clone()
        } else {
            None
        }
    }

    /// The workers that are at work.
    pub fn active_count(&self) -> (r: usize)
        ensures
            r == self.active_workers,
    {
        self.active_workers
    }

    /// A worker stops. Tells whether it was the last, so that those who wait for
    /// the end are to be woken.
    pub fn worker_done(&mut self) -> (r: bool)
        ensures
            r == (old(self).active_workers == 1),
            final(self).active_workers == one_less(old(self).active_workers),
            final(self).pending_chunks == old(self).pending_chunks,
            final(self).error == old(self).error,
            final(self).has_error == old(self).has_error,
    {
        let prev: usize = self.active_workers;
        self.active_workers = self.active_workers.wrapping_sub(1);
        prev == 1
    }

    /// Whether who waits for the end may go on.
    pub fn is_completed(&self) -> (r: bool)
        ensures
            r == (self.active_workers == 0),
    {
        self.active_workers == 0
    }

    /// Whether `after` and `r` are what comes of a worker that is to start.
    pub open spec fn claimed(
        self,
        after: UploadPoolState,
        acquired: bool,
        r: Option<ChunkInfo>,
    ) -> bool {
        &&& r == next_of(self.pending_chunks@, acquired)
        &&& after.pending_chunks@ == rest_of(self.pending_chunks@, acquired)
        &&& after.active_workers == if r is Some {
            one_more(self.active_workers)
        } else {
            self.active_workers as int
        }
        &&& after.error == self.error
        &&& after.has_error == self.has_error
    }

    /// Takes a chunk for a worker that is to start with it, and counts the worker.
    pub fn claim_worker(&mut self, acquired: bool) -> (r: Option<ChunkInfo>)
        ensures
            old(self).claimed(*final(self), acquired, r),
    {
        match self.next_chunk(acquired) {
            Some(chunk) => {
                self.worker_started();
                Some(chunk)
            },
            None => None,
        }
    }
}

impl UploadPoolState {
    /// Whether `after` and `r` are what comes of up to `concurrency` workers that are
    /// to start.
    pub open spec fn claimed_all(
        self,
        after: UploadPoolState,
        concurrency: usize,
        r: Seq<ChunkInfo>,
    ) -> bool {
        &&& r == dealt(self.pending_chunks@, concurrency as nat)
        &&& after.pending_chunks@ == self.pending_chunks@.skip(r.len() as int)
        &&& after.active_workers == many_more(self.active_workers, r.len())
        &&& after.error == self.error
        &&& after.has_error == self.has_error
    }

    /// Takes chunks for up to `concurrency` workers, one for each while there are any,
    /// and counts the workers.
    pub fn claim_workers(&mut self, concurrency: usize) -> (r: Vec<ChunkInfo>)
        ensures
            old(self).claimed_all(*final(self), concurrency, r@),
            r@.len() <= concurrency,
    {
        let ghost queue = self.pending_chunks@;
        let ghost workers = self.active_workers;
        let mut r: Vec<ChunkInfo> = Vec::new();
        let mut i: usize = 0;
        assert(queue.take(0) =~= Seq::empty());
        assert(queue.skip(0) =~= queue);
        while i < concurrency
            invariant
                i <= concurrency,
                r@ == queue.take(
                    if i < queue.len() {
                        i as int
                    } else {
                        queue.len() as int
                    },
                ),
                self.pending_chunks@ == queue.skip(r@.len() as int),
                self.active_workers == many_more(workers, r@.len()),
                self.error == old(self).error,
                self.has_error == old(self).has_error,
            decreases concurrency - i,
        {
            let ghost taken = r@;
            if let Some(chunk) = self.claim_worker(true) {
                r.push(chunk);
                assert(r@.len() <= usize::MAX) by {
                    assert(r@.len() == r.len());
                }
            }
            proof {
                if i < queue.len() {
                    assert(queue.take(i + 1) =~= taken.push(queue[i as int]));
                    assert(queue.skip(i as int).drop_first() =~= queue.skip(i + 1));
                }
            }
            i = i + 1;
        }
        proof {
            queue_deals_each_chunk_once(queue, concurrency as nat);
        }
        r
    }
}

/// The cause that is kept when another comes.
pub open spec fn kept_error(error: Option<String>, msg: String, acquired: bool) -> Option<String> {
    if acquired && error is None {
        Some(msg)
    } else {
        error
    }
}

/// Once a cause is kept, no later one replaces it.
pub proof fn first_error_is_kept(msg: String, later: String, acquired: bool)
    ensures
        kept_error(kept_error(None, msg, true), later, acquired) == Some(msg),
{
}

/// The chunk that a worker gets out of a queue.
pub open spec fn next_of(queue: Seq<ChunkInfo>, acquired: bool) -> Option<ChunkInfo> {
    if acquired && queue.len() > 0 {
        Some(queue.first())
    } else {
        None
    }
}

/// What is left of the queue then.
pub open spec fn rest_of(queue: Seq<ChunkInfo>, acquired: bool) -> Seq<ChunkInfo> {
    if acquired && queue.len() > 0 {
        queue.drop_first()
    } else {
        queue
    }
}

/// The chunks that `n` calls get out of a queue that is free.
pub open spec fn dealt(queue: Seq<ChunkInfo>, n: nat) -> Seq<ChunkInfo>
    decreases n,
{
    match next_of(queue, true) {
        Some(chunk) => if n == 0 {
            Seq::empty()
        } else {
            seq![chunk] + dealt(rest_of(queue, true), (n - 1) as nat)
        },
        None => Seq::empty(),
    }
}

/// A queue deals out each chunk once and in order, and nothing else.
pub proof fn queue_deals_each_chunk_once(queue: Seq<ChunkInfo>, n: nat)
    ensures
        dealt(queue, n) == queue.take(
            if n < queue.len() {
                n as int
            } else {
                queue.len() as int
            },
        ),
    decreases n,
{
    if queue.len() == 0 {
        assert(queue.take(0) =~= Seq::<ChunkInfo>::empty());
    } else if n == 0 {
        assert(queue.take(0) =~= Seq::<ChunkInfo>::empty());
    } else {
        queue_deals_each_chunk_once(queue.drop_first(), (n - 1) as nat);
        assert(dealt(queue, n) =~= queue.take(
            if n < queue.len() {
                n as int
            } else {
                queue.len() as int
            },
        ));
    }
}

/// The count of workers after some have started, `true`, and some have stopped.
pub open spec fn workers_after(events: Seq<bool>) -> int
    decreases events.len(),
{
    if events.len() == 0 {
        0
    } else if events.last() {
        one_more(workers_after(events.drop_last()) as usize)
    } else {
        one_less(workers_after(events.drop_last()) as usize)
    }
}

/// The workers that have started and not stopped.
pub open spec fn at_work(events: Seq<bool>) -> int
    decreases events.len(),
{
    if events.len() == 0 {
        0
    } else {
        at_work(events.drop_last()) + if events.last() {
            1int
        } else {
            -1
        }
    }
}

/// The pool counts the workers that are at work. So the worker that is told to wake
/// those who wait for the end, because it was the only one that was counted, is the
/// last one, and after it none is at work.
pub proof fn pool_counts_its_workers(events: Seq<bool>)
    requires
        forall|k: int| 0 <= k <= events.len() ==> 0 <= #[trigger] at_work(events.take(k))
            <= usize::MAX,
    ensures
        workers_after(events) == at_work(events),
        events.len() > 0 && !events.last() ==> (workers_after(events.drop_last()) == 1 <==> at_work(
            events,
        ) == 0),
    decreases events.len(),
{
    assert(events.take(events.len() as int) =~= events);
    if events.len() > 0 {
        let before = events.drop_last();
        assert forall|k: int| 0 <= k <= before.len() implies 0 <= #[trigger] at_work(
            before.take(k),
        ) <= usize::MAX by {
            assert(before.take(k) =~= events.take(k));
        }
        assert(before.take(before.len() as int) =~= before);
        pool_counts_its_workers(before);
    }
}

/// The progress that the workers note.
pub struct ChunkProgressState {
    pub chunk_progress: Vec<ChunkProgress>,
    pub updated_at: i64,
}

/// What becomes of the progress when a chunk has arrived under the tag `etag`.
pub open spec fn arrived(
    progress: Seq<ChunkProgress>,
    chunk: ChunkInfo,
    etag: Option<String>,
) -> Seq<ChunkProgress> {
    if chunk.index < progress.len() {
        progress.update(
            chunk.index as int,
            ChunkProgress {
                index: progress[chunk.index as int].index,
                loaded: chunk.size,
                etag,
            },
        )
    } else {
        progress
    }
}

impl ChunkProgressState {
    /// Notes at the time `now` that a chunk has arrived. The tag replaces the old
    /// one, also where there is none.
    pub fn chunk_arrived(&mut self, chunk: &ChunkInfo, etag: Option<String>, now: i64)
        ensures
            final(self).chunk_progress@ == arrived(old(self).chunk_progress@, *chunk, etag),
            final(self).updated_at == if chunk.index < old(self).chunk_progress@.len() {
                now
            } else {
                old(self).updated_at
            },
    {
        if chunk.index < self.chunk_progress.len() {
            let index: usize = self.chunk_progress[chunk.index].index;
            self.chunk_progress[chunk.index] = ChunkProgress { index, loaded: chunk.size, etag };
            self.updated_at = now;
        }
    }
}

/// What a worker does next.
pub enum WorkerAction {
    /// Send this chunk, and tell what came of it.
    Send(ChunkInfo),
    /// Go on with this chunk, if nothing stands against it.
    GoOn(ChunkInfo),
    /// Stop, and wake those who wait for the end if `wake`.
    Stop { wake: bool },
    /// Cancel the upload, then stop as above.
    CancelAndStop { wake: bool },
}

/// All that the workers of one upload share.
pub struct UploadPool {
    pub state: UploadPoolState,
    pub tracker: ProgressTracker,
    pub progress: ChunkProgressState,
}

impl UploadPool {
    /// Whether `after` and `action` are what comes of a worker that turns to a chunk.
    pub open spec fn begun(
        self,
        after: UploadPool,
        chunk: ChunkInfo,
        cancelled: bool,
        action: WorkerAction,
    ) -> bool {
        &&& if self.state.has_error || cancelled {
            &&& action == (WorkerAction::Stop { wake: self.state.active_workers == 1 })
            &&& after.state.active_workers == one_less(self.state.active_workers)
            &&& after.tracker == self.tracker
        } else {
            &&& action == WorkerAction::Send(chunk)
            &&& after.state.active_workers == self.state.active_workers
            &&& after.tracker.active_chunks == (self.tracker.active_chunks + 1) % wrap64()
            &&& after.tracker.completed_chunks == self.tracker.completed_chunks
            &&& after.tracker.uploaded_bytes == self.tracker.uploaded_bytes
            &&& after.tracker.same_upload(self.tracker)
        }
        &&& after.state.pending_chunks == self.state.pending_chunks
        &&& after.state.error == self.state.error
        &&& after.state.has_error == self.state.has_error
        &&& after.progress == self.progress
    }

    /// A worker turns to a chunk: it stops where a chunk has failed or the upload
    /// is cancelled, and else sends the chunk.
    pub fn begin_chunk(&mut self, chunk: ChunkInfo, cancelled: bool) -> (r: WorkerAction)
        ensures
            old(self).begun(*final(self), chunk, cancelled, r),
    {
        if self.state.has_error() || cancelled {
            let wake: bool = self.state.worker_done();
            return WorkerAction::Stop { wake };
        }
        self.tracker.start_chunk();
        WorkerAction::Send(chunk)
    }

    /// A chunk has arrived now: it is noted, and the worker goes on with the next
    /// chunk or stops where it gets none.
    pub fn chunk_uploaded(
        &mut self,
        chunk: &ChunkInfo,
        etag: Option<String>,
        acquired: bool,
    ) -> (r: WorkerAction)
        ensures
            old(self).uploaded(*final(self), *chunk, etag, acquired, r),
            chunk.index < old(self).progress.chunk_progress@.len()
                ==> 0 <= final(self).progress.updated_at <= latest_timestamp(),
            chunk.index >= old(self).progress.chunk_progress@.len()
                ==> final(self).progress.updated_at == old(self).progress.updated_at,
    {
        let now: i64 = utc_timestamp();
        self.chunk_uploaded_at(chunk, etag, acquired, now)
    }

    /// A chunk has arrived at the time `now`.
    pub fn chunk_uploaded_at(
        &mut self,
        chunk: &ChunkInfo,
        etag: Option<String>,
        acquired: bool,
        now: i64,
    ) -> (r: WorkerAction)
        ensures
            old(self).uploaded(*final(self), *chunk, etag, acquired, r),
            final(self).progress.updated_at == if chunk.index
                < old(self).progress.chunk_progress@.len() {
                now
            } else {
                old(self).progress.updated_at
            },
    {
        self.tracker.complete_chunk();
        self.progress.chunk_arrived(chunk, etag, now);
        match self.state.next_chunk(acquired) {
            Some(next) => WorkerAction::GoOn(next),
            None => {
                let wake: bool = self.state.worker_done();
                WorkerAction::Stop { wake }
            },
        }
    }

    /// Whether `after` and `action` are what comes of the arrival of a chunk, the
    /// time of the change apart.
    pub open spec fn uploaded(
        self,
        after: UploadPool,
        chunk: ChunkInfo,
        etag: Option<String>,
        acquired: bool,
        action: WorkerAction,
    ) -> bool {
        &&& after.tracker.active_chunks == (self.tracker.active_chunks - 1) % wrap64()
        &&& after.tracker.completed_chunks == (self.tracker.completed_chunks + 1) % wrap64()
        &&& after.tracker.uploaded_bytes == self.tracker.uploaded_bytes
        &&& after.tracker.same_upload(self.tracker)
        &&& after.progress.chunk_progress@ == arrived(
            self.progress.chunk_progress@,
            chunk,
            etag,
        )
        &&& after.state.pending_chunks@ == rest_of(self.state.pending_chunks@, acquired)
        &&& after.state.error == self.state.error
        &&& after.state.has_error == self.state.has_error
        &&& match next_of(self.state.pending_chunks@, acquired) {
            Some(next) => {
                &&& action == WorkerAction::GoOn(next)
                &&& after.state.active_workers == self.state.active_workers
            },
            None => {
                &&& action == (WorkerAction::Stop { wake: self.state.active_workers == 1 })
                &&& after.state.active_workers == one_less(self.state.active_workers)
            },
        }
    }

    /// Whether `after` and `action` are what comes of the failure of a chunk.
    pub open spec fn failed(
        self,
        after: UploadPool,
        message: String,
        acquired: bool,
        action: WorkerAction,
    ) -> bool {
        &&& action == (WorkerAction::CancelAndStop { wake: self.state.active_workers == 1 })
        &&& after.state.has_error
        &&& after.state.error == kept_error(self.state.error, message, acquired)
        &&& after.state.active_workers == one_less(self.state.active_workers)
        &&& after.state.pending_chunks == self.state.pending_chunks
        &&& after.tracker == self.tracker
        &&& after.progress == self.progress
    }

    /// A chunk has failed for good: the upload stops.
    pub fn chunk_failed(&mut self, message: String, acquired: bool) -> (r: WorkerAction)
        ensures
            old(self).failed(*final(self), message, acquired, r),
    {
        self.state.set_error(message, acquired);
        let wake: bool = self.state.worker_done();
        WorkerAction::CancelAndStop { wake }
    }

    /// Whether `after` and `r` are what the end of the upload makes of a session.
    pub open spec fn finished(
        self,
        before: UploadSession,
        after: UploadSession,
        acquired: bool,
        r: Result<(), String>,
    ) -> bool {
        &&& after.same_upload(before)
        &&& after.chunk_progress@ == self.progress.chunk_progress@
        &&& after.updated_at == self.progress.updated_at
        &&& match self.state.error {
            Some(msg) => if acquired {
                r matches Err(e) && e@ == "Upload failed: "@ + msg@
            } else {
                r is Ok
            },
            None => r is Ok,
        }
    }

    /// Ends an upload whose workers have all stopped: the session takes over their
    /// progress, and a failure that was noted is the result.
    pub fn finish(&self, session: &mut UploadSession, acquired: bool) -> (r: Result<(), String>)
        ensures
            self.finished(*old(session), *final(session), acquired, r),
    {
        let error: Option<String> = self.state.get_error(acquired);
        session.chunk_progress = self.progress.chunk_progress.clone();
        assert(session.chunk_progress@ =~= self.progress.chunk_progress@);
        session.updated_at = self.progress.updated_at;
        match error {
            Some(msg) => Err("Upload failed: ".to_owned().concat(msg.as_str())),
            None => Ok(()),
        }
    }
}

/// The place in the file of the chunk `index`.
pub open spec fn info_of(file_size: u64, chunk_size: u64, index: usize) -> ChunkInfo {
    ChunkInfo {
        index,
        size: chunk_len(file_size as nat, chunk_size as nat, index as nat) as u64,
        offset: chunk_start(chunk_size as nat, index as nat) as u64,
    }
}

/// The places of the chunks `indices`.
pub open spec fn infos_of(file_size: u64, chunk_size: u64, indices: Seq<usize>) -> Seq<ChunkInfo> {
    indices.map_values(|i: usize| info_of(file_size, chunk_size, i))
}

/// Whether the places of the chunks `indices` can be told: their starts fit.
pub open spec fn starts_fit(chunk_size: u64, indices: Seq<usize>) -> bool {
    forall|k: int|
        0 <= k < indices.len() ==> chunk_size == 0 || #[trigger] indices[k] * chunk_size
            <= u64::MAX
}

/// Looks up the places of chunks in the file.
pub fn chunk_infos(session: &UploadSession, pending_chunks: &Vec<usize>) -> (r: Vec<ChunkInfo>)
    requires
        starts_fit(session.chunk_size, pending_chunks@),
    ensures
        r@ == infos_of(session.file_size, session.chunk_size, pending_chunks@),
{
    let mut r: Vec<ChunkInfo> = Vec::new();
    let mut i: usize = 0;
    while i < pending_chunks.len()
        invariant
            i <= pending_chunks@.len(),
            starts_fit(session.chunk_size, pending_chunks@),
            r@ == infos_of(
                session.file_size,
                session.chunk_size,
                pending_chunks@.take(i as int),
            ),
        decreases pending_chunks@.len() - i,
    {
        let index: usize = pending_chunks[i];
        let (offset, _end) = session.chunk_range(index);
        let size: u64 = session.chunk_size_for(index);
        r.push(ChunkInfo::new(index, offset, size));
        proof {
            assert(r@ =~= infos_of(
                session.file_size,
                session.chunk_size,
                pending_chunks@.take(i + 1),
            ));
        }
        i = i + 1;
    }
    assert(pending_chunks@.take(i as int) =~= pending_chunks@);
    r
}

/// What there is to do for a session.
pub enum UploadPlan {
    /// Every chunk has arrived.
    AllUploaded,
    /// These workers are to run.
    Run(PoolPlan),
}

/// The workers of an upload before they start.
pub struct PoolPlan {
    pub encryption: Option<EncryptionConfig>,
    pub concurrency: usize,
    pub pool: UploadPool,
}

/// The chunks that have arrived.
pub open spec fn arrived_count(progress: Seq<ChunkProgress>) -> nat
    decreases progress.len(),
{
    if progress.len() == 0 {
        0
    } else if progress.last().complete() {
        arrived_count(progress.drop_last()) + 1
    } else {
        arrived_count(progress.drop_last())
    }
}

/// What arrived before counts from the start, as bytes and as complete chunks.
/// The count of active chunks goes down with each chunk that arrived, and wraps.
pub fn resume_tracker(session: &UploadSession) -> (r: ProgressTracker)
    ensures
        r.total_size == session.file_size,
        r.total_chunks == session.chunk_progress@.len(),
        r.uploaded_bytes == loaded_sum(session.chunk_progress@) as int % wrap64(),
        r.completed_chunks == arrived_count(session.chunk_progress@),
        r.active_chunks == -arrived_count(session.chunk_progress@) % wrap64(),
        r.speed_calc.samples() == Seq::<(u128, u64)>::empty(),
        r.cached_speed == 0,
{
    let ghost all = session.chunk_progress@;
    let mut tracker: ProgressTracker = ProgressTracker::new(
        session.file_size,
        session.num_chunks(),
    );
    let mut i: usize = 0;
    while i < session.chunk_progress.len()
        invariant
            all == session.chunk_progress@,
            i <= all.len(),
            tracker.total_size == session.file_size,
            tracker.total_chunks == all.len(),
            tracker.uploaded_bytes == loaded_sum(all.take(i as int)) as int % wrap64(),
            tracker.completed_chunks == arrived_count(all.take(i as int)),
            arrived_count(all.take(i as int)) <= i,
            tracker.active_chunks == -arrived_count(all.take(i as int)) % wrap64(),
            tracker.speed_calc.samples() == Seq::<(u128, u64)>::empty(),
            tracker.cached_speed == 0,
        decreases all.len() - i,
    {
        proof {
            assert(all.take(i + 1).drop_last() =~= all.take(i as int));
            assert(all.take(i + 1).last() == all[i as int]);
        }
        if session.chunk_progress[i].is_complete() {
            tracker.add_bytes(session.chunk_progress[i].loaded);
            tracker.complete_chunk();
        }
        i = i + 1;
    }
    assert(all.take(i as int) =~= all);
    tracker
}

/// Plans the upload of what is still missing, through the cipher `encryption`.
pub fn plan_with(session: &UploadSession, encryption: Option<EncryptionConfig>) -> (r: UploadPlan)
    requires
        starts_fit(session.chunk_size, pending_of(session.chunk_progress@)),
    ensures
        pending_of(session.chunk_progress@).len() == 0 ==> r is AllUploaded,
        pending_of(session.chunk_progress@).len() > 0 ==> (r matches UploadPlan::Run(plan)
            && plan.runs(*session) && plan.encryption == encryption),
{
    let concurrency: usize = session.chunk_concurrency();
    let pending_chunks: Vec<usize> = session.pending_chunks();
    if pending_chunks.is_empty() {
        return UploadPlan::AllUploaded;
    }
    let tracker: ProgressTracker = resume_tracker(session);
    let infos: Vec<ChunkInfo> = chunk_infos(session, &pending_chunks);
    let state: UploadPoolState = UploadPoolState::new(infos);
    let chunk_progress: Vec<ChunkProgress> = session.chunk_progress.clone();
    assert(chunk_progress@ =~= session.chunk_progress@);
    let progress: ChunkProgressState = ChunkProgressState {
        chunk_progress,
        updated_at: session.updated_at,
    };
    let pool: UploadPool = UploadPool { state, tracker, progress };
    UploadPlan::Run(PoolPlan { encryption, concurrency, pool })
}

impl PoolPlan {
    /// Whether the plan, its cipher apart, is the one for `session`.
    pub open spec fn runs(self, session: UploadSession) -> bool {
        &&& self.concurrency == match session.credential.storage_policy {
            Some(p) => match p.chunk_concurrency {
                Some(c) => if c > 1 {
                    c as int
                } else {
                    1
                },
                None => 1,
            },
            None => 1,
        }
        &&& self.pool.state.pending_chunks@ == infos_of(
            session.file_size,
            session.chunk_size,
            pending_of(session.chunk_progress@),
        )
        &&& self.pool.state.error is None
        &&& !self.pool.state.has_error
        &&& self.pool.state.active_workers == 0
        &&& self.pool.progress.chunk_progress@ == session.chunk_progress@
        &&& self.pool.progress.updated_at == session.updated_at
        &&& self.pool.tracker.total_size == session.file_size
        &&& self.pool.tracker.total_chunks == session.chunk_progress@.len()
        &&& self.pool.tracker.uploaded_bytes == loaded_sum(session.chunk_progress@) as int
            % wrap64()
        &&& self.pool.tracker.completed_chunks == arrived_count(session.chunk_progress@)
        &&& self.pool.tracker.active_chunks == -arrived_count(session.chunk_progress@) % wrap64()
        &&& self.pool.tracker.speed_calc.samples() == Seq::<(u128, u64)>::empty()
        &&& self.pool.tracker.cached_speed == 0
    }
}

/// The key and the counter of a session, where it has any.
pub open spec fn cipher_parts(metadata: EncryptMetadata) -> Result<
    (Seq<u8>, Seq<u8>),
    Seq<char>,
> {
    config_parts(base64_decoding(metadata.key_plain_text@), base64_decoding(metadata.iv@))
}

/// Whether a session has a key that cannot be read.
pub open spec fn has_bad_key(session: UploadSession) -> bool {
    session.encrypt_metadata matches Some(metadata) && cipher_parts(metadata) is Err
}

/// Whether `r` is the plan for a session, or the reason why there is none.
pub open spec fn is_plan(session: UploadSession, r: UploadResult<UploadPlan>) -> bool {
    &&& match session.encrypt_metadata {
        Some(metadata) => match cipher_parts(metadata) {
            Err(e) => r matches Err(UploadError::EncryptionError(m)) && m@ == e,
            Ok(_) => r is Ok,
        },
        None => r is Ok,
    }
    &&& r matches Ok(plan) ==> {
        &&& pending_of(session.chunk_progress@).len() == 0 <==> plan is AllUploaded
        &&& plan matches UploadPlan::Run(run) ==> {
            &&& run.runs(session)
            &&& session.encrypt_metadata is None ==> run.encryption is None
            &&& session.encrypt_metadata matches Some(metadata) ==> {
                &&& run.encryption matches Some(config)
                &&& cipher_parts(metadata) == Ok::<(Seq<u8>, Seq<u8>), Seq<char>>(
                    (config.key(), config.iv()),
                )
            }
        }
    }
}

/// Plans the upload of what is still missing. A key that cannot be read comes
/// before all else, even where nothing is missing or the places of the chunks
/// cannot be told.
pub fn plan_upload(session: &UploadSession) -> (r: UploadResult<UploadPlan>)
    requires
        has_bad_key(*session) || starts_fit(
            session.chunk_size,
            pending_of(session.chunk_progress@),
        ),
    ensures
        is_plan(*session, r),
{
    let encryption: Option<EncryptionConfig> = match &session.encrypt_metadata {
        Some(metadata) => match EncryptionConfig::from_metadata(metadata) {
            Ok(config) => Some(config),
            Err(e) => {
                return Err(e);
            },
        },
        None => None,
    };
    Ok(plan_with(session, encryption))
}

/// Whether the places of the chunks that are missing can be told.
pub fn missing_starts_fit(session: &UploadSession) -> (r: bool)
    ensures
        r == starts_fit(session.chunk_size, pending_of(session.chunk_progress@)),
{
    let pending: Vec<usize> = session.pending_chunks();
    if session.chunk_size == 0 {
        return true;
    }
    let mut i: usize = 0;
    while i < pending.len()
        invariant
            session.chunk_size > 0,
            pending@ == pending_of(session.chunk_progress@),
            i <= pending@.len(),
            forall|k: int|
                0 <= k < i ==> #[trigger] pending@[k] * session.chunk_size <= u64::MAX,
        decreases pending@.len() - i,
    {
        if (pending[i] as u64).checked_mul(session.chunk_size).is_none() {
            assert(pending@[i as int] * session.chunk_size > u64::MAX);
            return false;
        }
        i = i + 1;
    }
    true
}

/// Plans the upload of what is still missing, for any session: there is no plan,
/// and no error, where the key is none or can be read and the places of the chunks
/// cannot be told.
pub fn try_plan_upload(session: &UploadSession) -> (r: Option<UploadResult<UploadPlan>>)
    ensures
        r is None <==> !has_bad_key(*session) && !starts_fit(
            session.chunk_size,
            pending_of(session.chunk_progress@),
        ),
        r matches Some(plan) ==> is_plan(*session, plan),
{
    let bad_key: bool = match &session.encrypt_metadata {
        Some(metadata) => EncryptionConfig::from_metadata(metadata).is_err(),
        None => false,
    };
    if bad_key || missing_starts_fit(session) {
        Some(plan_upload(session))
    } else {
        None
    }
}

/// A session just opened is planned with the key and the counter that the server gave,
/// whatever its storage policy is, and without any where the server gave none; and all
/// its chunks are to be sent. There is no plan only where the server's key or counter
/// cannot be read.
pub proof fn opened_session_is_planned_with_its_key(
    session: UploadSession,
    task_id: String,
    drive_id: String,
    local_path: String,
    remote_uri: String,
    file_size: u64,
    credential: crate::api::models::UploadCredential,
    r: UploadResult<UploadPlan>,
)
    requires
        session.opened(task_id, drive_id, local_path, remote_uri, file_size, credential),
        is_plan(session, r),
    ensures
        r matches Ok(plan) ==> plan is Run,
        r matches Ok(UploadPlan::Run(run)) ==> {
            &&& run.encryption is Some <==> credential.encrypt_metadata is Some
            &&& credential.encrypt_metadata matches Some(metadata) ==> {
                &&& base64_decoding(metadata.key_plain_text@) == Ok::<Seq<u8>, Seq<char>>(
                    run.encryption->Some_0.key(),
                )
                &&& base64_decoding(metadata.iv@) == Ok::<Seq<u8>, Seq<char>>(
                    run.encryption->Some_0.iv(),
                )
            }
            &&& run.pool.state.pending_chunks@.len() == session.chunk_progress@.len()
        },
        r is Err ==> {
            &&& credential.encrypt_metadata matches Some(metadata)
            &&& base64_decoding(metadata.key_plain_text@) is Err || base64_decoding(
                metadata.iv@,
            ) is Err || base64_decoding(metadata.key_plain_text@)->Ok_0.len() != 32
                || base64_decoding(metadata.iv@)->Ok_0.len() != 16
        },
{
    let progress = session.chunk_progress@;
    lemma_all_pending(progress);
    crate::uploader::laws::chunk_sizes_add_up(file_size as nat, session.chunk_size as nat);
}

proof fn lemma_all_pending(progress: Seq<ChunkProgress>)
    requires
        forall|i: int| 0 <= i < progress.len() ==> (#[trigger] progress[i]).loaded == 0,
    ensures
        pending_of(progress).len() == progress.len(),
    decreases progress.len(),
{
    reveal(Seq::filter);
    if progress.len() > 0 {
        let rest = progress.drop_last();
        assert forall|i: int| 0 <= i < rest.len() implies (#[trigger] rest[i]).loaded == 0 by {
            assert(rest[i] == progress[i]);
        }
        lemma_all_pending(rest);
        assert(progress.last() == progress[progress.len() - 1]);
    }
}

/// A plan for a session has all that is missing in its queue, in order and each chunk as
/// the piece of the file that it is; as many workers as the storage policy allows, and
/// one if it does not say; and counters that start with what has arrived.
pub proof fn plans_are_for_what_is_missing(plan: PoolPlan, session: UploadSession, k: int)
    requires
        crate::uploader::laws::tracks(
            session.chunk_progress@,
            session.file_size,
            session.chunk_size,
        ),
        plan.runs(session),
        0 <= k < plan.pool.state.pending_chunks@.len(),
    ensures
        plan.pool.state.pending_chunks@.len() + plan.pool.tracker.completed_chunks
            == session.chunk_progress@.len(),
        ({
            let chunk = plan.pool.state.pending_chunks@[k];
            &&& chunk.index < session.chunk_progress@.len()
            &&& session.chunk_progress@[chunk.index as int].loaded == 0
            &&& chunk.offset == chunk.index * session.chunk_size
            &&& chunk.offset + chunk.size <= session.file_size
            &&& chunk.size == session.chunk_size || chunk.offset + chunk.size == session.file_size
            &&& k > 0 ==> plan.pool.state.pending_chunks@[k - 1].index < chunk.index
        }),
        plan.concurrency >= 1,
        session.credential.storage_policy matches Some(p) ==> (p.chunk_concurrency matches Some(c)
            ==> (c >= 1 ==> plan.concurrency == c)),
        !(session.credential.storage_policy matches Some(p) && p.chunk_concurrency matches Some(
            c,
        ) && c >= 1) ==> plan.concurrency == 1,
        plan.pool.state.active_workers == 0,
        !plan.pool.state.has_error,
        plan.pool.state.error is None,
        plan.pool.progress.chunk_progress@ == session.chunk_progress@,
        plan.pool.progress.updated_at == session.updated_at,
        plan.pool.tracker.total_size == session.file_size,
        plan.pool.tracker.total_chunks == session.chunk_progress@.len(),
        loaded_sum(session.chunk_progress@) <= u64::MAX ==> plan.pool.tracker.uploaded_bytes
            == loaded_sum(session.chunk_progress@),
{
    let progress = session.chunk_progress@;
    let pending = pending_of(progress);
    crate::uploader::laws::pending_is_what_is_missing(progress);
    crate::uploader::laws::chunks_are_counted_once(progress);
    assert(pending.contains(pending[k]));
    let i = pending[k] as nat;
    crate::uploader::laws::chunks_lie_in_the_file(
        session.file_size as nat,
        session.chunk_size as nat,
        i,
    );
    crate::uploader::laws::chunks_are_full_but_the_last(
        session.file_size as nat,
        session.chunk_size as nat,
        i,
    );
    if session.chunk_size == 0 {
        assert(i == 0);
        assert(0 * session.chunk_size == 0);
    }
}

/// A worker that reaches for a chunk gets the one that has waited longest, if the queue
/// is free and not empty, and leaves the others; else it gets none and leaves all.
pub proof fn workers_get_what_has_waited_longest(queue: Seq<ChunkInfo>, acquired: bool)
    ensures
        next_of(queue, acquired) is Some <==> acquired && queue.len() > 0,
        next_of(queue, acquired) matches Some(chunk) ==> chunk == queue[0] && queue == seq![chunk]
            + rest_of(queue, acquired),
        next_of(queue, acquired) is None ==> rest_of(queue, acquired) == queue,
{
    if acquired && queue.len() > 0 {
        assert(queue =~= seq![queue[0]] + rest_of(queue, acquired));
    }
}

/// A cause that finds its place taken, or in use, is dropped.
pub proof fn later_errors_are_dropped(error: Option<String>, msg: String, acquired: bool)
    ensures
        kept_error(error, msg, acquired) == if error is Some {
            error
        } else if acquired {
            Some(msg)
        } else {
            None
        },
{
}

/// A worker goes on to send its chunk exactly while no chunk has failed and nobody has
/// cancelled, and is then counted as sending. Else it stops, and is told to wake those
/// who wait exactly if it leaves no worker at work.
pub proof fn workers_begin_while_nothing_is_wrong(
    before: UploadPool,
    after: UploadPool,
    chunk: ChunkInfo,
    cancelled: bool,
    action: WorkerAction,
)
    requires
        before.begun(after, chunk, cancelled, action),
        before.state.active_workers > 0,
    ensures
        action == WorkerAction::Send(chunk) <==> !before.state.has_error && !cancelled,
        before.state.has_error || cancelled ==> {
            &&& action == (WorkerAction::Stop { wake: after.state.active_workers == 0 })
            &&& after.state.active_workers == before.state.active_workers - 1
            &&& after.tracker == before.tracker
        },
        action is Send ==> {
            &&& after.state.active_workers == before.state.active_workers
            &&& after.tracker.active_chunks == before.tracker.active_chunks + 1 || (
            before.tracker.active_chunks == u64::MAX && after.tracker.active_chunks == 0)
        },
        after.tracker.completed_chunks == before.tracker.completed_chunks,
        after.tracker.uploaded_bytes == before.tracker.uploaded_bytes,
        after.progress == before.progress,
        after.state.pending_chunks@ == before.state.pending_chunks@,
        after.state.error == before.state.error,
        after.state.has_error == before.state.has_error,
{
}

/// A worker whose chunk has arrived goes on with the chunk that has waited longest, if
/// the queue is free and not empty. Else it stops, and is told to wake those who wait
/// exactly if it leaves no worker at work. The chunk is counted once as complete, and no
/// more as being sent.
pub proof fn workers_go_on_while_chunks_wait(
    before: UploadPool,
    after: UploadPool,
    chunk: ChunkInfo,
    etag: Option<String>,
    acquired: bool,
    action: WorkerAction,
)
    requires
        before.uploaded(after, chunk, etag, acquired, action),
        before.state.active_workers > 0,
        before.tracker.active_chunks > 0,
        before.tracker.completed_chunks < u64::MAX,
    ensures
        acquired && before.state.pending_chunks@.len() > 0 ==> {
            &&& action == WorkerAction::GoOn(before.state.pending_chunks@[0])
            &&& after.state.pending_chunks@ == before.state.pending_chunks@.skip(1)
            &&& after.state.active_workers == before.state.active_workers
        },
        !(acquired && before.state.pending_chunks@.len() > 0) ==> {
            &&& action == (WorkerAction::Stop { wake: after.state.active_workers == 0 })
            &&& after.state.pending_chunks@ == before.state.pending_chunks@
            &&& after.state.active_workers == before.state.active_workers - 1
        },
        after.tracker.active_chunks == before.tracker.active_chunks - 1,
        after.tracker.completed_chunks == before.tracker.completed_chunks + 1,
        after.tracker.uploaded_bytes == before.tracker.uploaded_bytes,
        after.tracker.total_size == before.tracker.total_size,
        after.tracker.total_chunks == before.tracker.total_chunks,
        after.state.error == before.state.error,
        after.state.has_error == before.state.has_error,
        chunk.index < before.progress.chunk_progress@.len() ==> {
            let noted = after.progress.chunk_progress@[chunk.index as int];
            noted.loaded == chunk.size && noted.etag == etag
        },
{
    if acquired && before.state.pending_chunks@.len() > 0 {
        assert(before.state.pending_chunks@.drop_first() =~= before.state.pending_chunks@.skip(1));
    }
}

/// A worker whose chunk has failed cancels the upload and stops, and is told to wake those
/// who wait exactly if it leaves no worker at work. What has arrived stays noted.
pub proof fn failure_cancels_the_upload(
    before: UploadPool,
    after: UploadPool,
    message: String,
    acquired: bool,
    action: WorkerAction,
)
    requires
        before.failed(after, message, acquired, action),
        before.state.active_workers > 0,
    ensures
        action == (WorkerAction::CancelAndStop { wake: after.state.active_workers == 0 }),
        after.state.active_workers == before.state.active_workers - 1,
        after.state.has_error,
        after.state.error is Some <==> before.state.error is Some || acquired,
        before.state.error is Some ==> after.state.error == before.state.error,
        before.state.error is None && acquired ==> after.state.error == Some(message),
        after.state.pending_chunks@ == before.state.pending_chunks@,
        after.progress == before.progress,
        after.tracker == before.tracker,
{
}

/// Workers start with the chunks that have waited longest, one each, as many as are
/// allowed and as there are chunks.
pub proof fn workers_start_with_what_has_waited_longest(
    before: UploadPoolState,
    after: UploadPoolState,
    concurrency: usize,
    r: Seq<ChunkInfo>,
)
    requires
        before.claimed_all(after, concurrency, r),
        before.active_workers + before.pending_chunks@.len() <= usize::MAX,
    ensures
        r.len() == concurrency || (r.len() < concurrency && r.len()
            == before.pending_chunks@.len()),
        before.pending_chunks@ == r + after.pending_chunks@,
        after.active_workers == before.active_workers + r.len(),
        after.error == before.error,
        after.has_error == before.has_error,
{
    queue_deals_each_chunk_once(before.pending_chunks@, concurrency as nat);
    assert(before.pending_chunks@ =~= r + after.pending_chunks@);
}

/// An upload that ends leaves its session with the progress and the time that its workers
/// noted and nothing else changed, and fails exactly with the cause that was kept.
pub proof fn end_hands_the_progress_over(
    pool: UploadPool,
    before: UploadSession,
    after: UploadSession,
    acquired: bool,
    r: Result<(), String>,
)
    requires
        pool.finished(before, after, acquired, r),
    ensures
        after == (UploadSession {
            chunk_progress: after.chunk_progress,
            updated_at: pool.progress.updated_at,
            ..before
        }),
        after.chunk_progress@ == pool.progress.chunk_progress@,
        r is Err <==> acquired && pool.state.error is Some,
        r matches Err(e) ==> e@ == "Upload failed: "@ + pool.state.error->Some_0@,
{
}

}
