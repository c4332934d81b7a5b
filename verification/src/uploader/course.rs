//! The course of an upload through its pool: where each chunk is at any moment,
//! and what that comes to once the workers have stopped.

use crate::uploader::chunk::ChunkInfo;
use crate::uploader::chunk::ChunkProgress;
use crate::uploader::laws::chunks_lie_in_the_file;
use crate::uploader::laws::full_chunks_are_the_whole_file;
use crate::uploader::laws::nothing_pending_means_all_complete;
use crate::uploader::laws::pending_is_what_is_missing;
use crate::uploader::laws::tracks;
use crate::uploader::pool::arrived;
use crate::uploader::pool::info_of;
use crate::uploader::pool::infos_of;
use crate::uploader::pool::next_of;
use crate::uploader::pool::queue_deals_each_chunk_once;
use crate::uploader::pool::rest_of;
use crate::uploader::pool::PoolPlan;
use crate::uploader::pool::UploadPool;
use crate::uploader::pool::WorkerAction;
use crate::uploader::session::chunk_len;
use crate::uploader::session::loaded_sum;
use crate::uploader::session::pending_of;
use crate::uploader::session::UploadSession;
use vstd::prelude::*;

verus! {

/// Where the chunks are. Those that had not arrived at the start wait in the queue,
/// are with a worker, have been given up, or are noted under the tag that they
/// arrived with.
pub struct Course {
    pub start: Seq<ChunkProgress>,
    pub queue: Seq<ChunkInfo>,
    pub sending: Set<usize>,
    pub given_up: Set<usize>,
    pub noted: Map<usize, Option<String>>,
    pub progress: Seq<ChunkProgress>,
}

/// What happens to a chunk.
pub enum CourseStep {
    /// A worker reaches into the queue, which is free or not.
    Take { acquired: bool },
    /// A chunk that is with a worker arrives under this tag.
    Arrive { chunk: ChunkInfo, etag: Option<String> },
    /// A chunk that is with a worker is given up: it has failed, or the worker stops
    /// before it sends it.
    GiveUp { chunk: ChunkInfo },
}

/// Whether a queue holds a chunk.
pub open spec fn queued(queue: Seq<ChunkInfo>, index: usize) -> bool {
    exists|k: int| 0 <= k < queue.len() && (#[trigger] queue[k]).index == index
}

/// One for what holds, and nothing for what does not.
pub open spec fn one_if(holds: bool) -> nat {
    if holds {
        1
    } else {
        0
    }
}

impl Course {
    /// The course of an upload that starts with this progress.
    pub open spec fn begin(progress: Seq<ChunkProgress>, file_size: u64, chunk_size: u64) -> Course {
        Course {
            start: progress,
            queue: infos_of(file_size, chunk_size, pending_of(progress)),
            sending: Set::empty(),
            given_up: Set::empty(),
            noted: Map::empty(),
            progress,
        }
    }

    /// The course after a step.
    pub open spec fn after(self, step: CourseStep) -> Course {
        match step {
            CourseStep::Take { acquired } => match next_of(self.queue, acquired) {
                Some(chunk) => Course {
                    queue: rest_of(self.queue, acquired),
                    sending: self.sending.insert(chunk.index),
                    ..self
                },
                None => self,
            },
            CourseStep::Arrive { chunk, etag } => Course {
                sending: self.sending.remove(chunk.index),
                noted: self.noted.insert(chunk.index, etag),
                progress: arrived(self.progress, chunk, etag),
                ..self
            },
            CourseStep::GiveUp { chunk } => Course {
                sending: self.sending.remove(chunk.index),
                given_up: self.given_up.insert(chunk.index),
                ..self
            },
        }
    }

    /// Whether a worker has this chunk.
    pub open spec fn has(self, chunk: ChunkInfo, file_size: u64, chunk_size: u64) -> bool {
        &&& self.sending.contains(chunk.index)
        &&& chunk == info_of(file_size, chunk_size, chunk.index)
    }

    /// Whether a step can happen: what arrives or is given up is with a worker.
    pub open spec fn can(self, step: CourseStep, file_size: u64, chunk_size: u64) -> bool {
        match step {
            CourseStep::Take { .. } => true,
            CourseStep::Arrive { chunk, .. } => self.has(chunk, file_size, chunk_size),
            CourseStep::GiveUp { chunk } => self.has(chunk, file_size, chunk_size),
        }
    }

    /// Whether a chunk had arrived before the start.
    pub open spec fn was_there(self, index: usize) -> bool {
        self.start[index as int].complete()
    }

    /// In how many places a chunk is.
    pub open spec fn places(self, index: usize) -> nat {
        one_if(self.was_there(index)) + one_if(queued(self.queue, index)) + one_if(
            self.sending.contains(index),
        ) + one_if(self.given_up.contains(index)) + one_if(self.noted.contains_key(index))
    }

    /// What the progress says of a chunk: all its bytes where it is noted, and else
    /// what it said at the start.
    pub open spec fn entry(self, index: usize, file_size: u64, chunk_size: u64) -> ChunkProgress {
        if self.noted.contains_key(index) {
            ChunkProgress {
                index: self.start[index as int].index,
                loaded: chunk_len(file_size as nat, chunk_size as nat, index as nat) as u64,
                etag: self.noted[index],
            }
        } else {
            self.start[index as int]
        }
    }

    /// Whether every chunk of the file is in just one place, waits there once and for
    /// what it is, and has the progress that goes with its place.
    pub open spec fn whole(self, file_size: u64, chunk_size: u64) -> bool {
        &&& tracks(self.start, file_size, chunk_size)
        &&& self.progress.len() == self.start.len()
        &&& forall|i: usize|
            i < self.progress.len() ==> #[trigger] self.progress[i as int] == self.entry(
                i,
                file_size,
                chunk_size,
            )
        &&& forall|k: int|
            0 <= k < self.queue.len() ==> (#[trigger] self.queue[k]) == info_of(
                file_size,
                chunk_size,
                self.queue[k].index,
            ) && self.queue[k].index < self.start.len()
        &&& forall|j: int, k: int|
            0 <= j < k < self.queue.len() ==> (#[trigger] self.queue[j]).index != (
            #[trigger] self.queue[k]).index
        &&& forall|i: usize| #[trigger] self.sending.contains(i) ==> i < self.start.len()
        &&& forall|i: usize| #[trigger] self.given_up.contains(i) ==> i < self.start.len()
        &&& forall|i: usize| #[trigger] self.noted.contains_key(i) ==> i < self.start.len()
        &&& forall|i: usize| i < self.start.len() ==> #[trigger] self.places(i) == 1
    }
}

/// An upload starts with every chunk in one place: what is missing waits, and the
/// rest was there before.
pub proof fn upload_starts_whole(progress: Seq<ChunkProgress>, file_size: u64, chunk_size: u64)
    requires
        tracks(progress, file_size, chunk_size),
    ensures
        Course::begin(progress, file_size, chunk_size).whole(file_size, chunk_size),
{
    let course = Course::begin(progress, file_size, chunk_size);
    let pending = pending_of(progress);
    pending_is_what_is_missing(progress);
    assert forall|k: int| 0 <= k < course.queue.len() implies (#[trigger] course.queue[k])
        == info_of(file_size, chunk_size, course.queue[k].index) && course.queue[k].index
        < progress.len() by {
        assert(pending.contains(pending[k]));
    }
    assert forall|i: usize| i < progress.len() implies #[trigger] course.places(i) == 1 by {
        if course.was_there(i) {
            assert(!pending.contains(i));
            if queued(course.queue, i) {
                let k = choose|k: int|
                    0 <= k < course.queue.len() && (#[trigger] course.queue[k]).index == i;
                assert(pending[k] == i);
            }
        } else {
            assert(pending.contains(i));
            let k = pending.index_of(i);
            assert(course.queue[k].index == i);
        }
    }
}

proof fn lemma_take(course: Course, file_size: u64, chunk_size: u64)
    requires
        course.whole(file_size, chunk_size),
        course.queue.len() > 0,
    ensures
        course.after(CourseStep::Take { acquired: true }).whole(file_size, chunk_size),
        course.queue.first().index < course.start.len(),
        !course.sending.contains(course.queue.first().index),
        !course.given_up.contains(course.queue.first().index),
        !course.noted.contains_key(course.queue.first().index),
        !course.was_there(course.queue.first().index),
        course.queue.first() == info_of(file_size, chunk_size, course.queue.first().index),
{
    let chunk = course.queue.first();
    let next = course.after(CourseStep::Take { acquired: true });
    assert(course.queue[0] == chunk);
    assert(queued(course.queue, chunk.index));
    assert(course.places(chunk.index) == 1);
    assert forall|k: int| 0 <= k < next.queue.len() implies next.queue[k] == course.queue[k
        + 1] by {}
    assert forall|i: usize| i < next.start.len() implies #[trigger] next.places(i) == 1 by {
        assert(course.places(i) == 1);
        if queued(next.queue, i) {
            let k = choose|k: int|
                0 <= k < next.queue.len() && (#[trigger] next.queue[k]).index == i;
            assert(course.queue[k + 1].index == i);
            assert(course.queue[0].index != course.queue[k + 1].index);
        } else if queued(course.queue, i) {
            let k = choose|k: int|
                0 <= k < course.queue.len() && (#[trigger] course.queue[k]).index == i;
            if k > 0 {
                assert(next.queue[k - 1].index == i);
            }
        }
    }
    assert forall|i: usize| #[trigger] next.sending.contains(i) implies i < next.start.len() by {
        if i != chunk.index {
            assert(course.sending.contains(i));
        }
    }
    assert forall|i: usize| i < next.progress.len() implies #[trigger] next.progress[i as int]
        == next.entry(i, file_size, chunk_size) by {
        assert(course.progress[i as int] == course.entry(i, file_size, chunk_size));
    }
}

/// Every step leaves every chunk in one place. A chunk that a worker takes is with
/// no other worker, and has neither arrived nor been given up, so none is sent by
/// two workers or after it has arrived.
pub proof fn steps_lose_and_double_no_chunk(
    course: Course,
    step: CourseStep,
    file_size: u64,
    chunk_size: u64,
)
    requires
        course.whole(file_size, chunk_size),
        course.can(step, file_size, chunk_size),
    ensures
        course.after(step).whole(file_size, chunk_size),
        step matches CourseStep::Take { acquired } ==> (next_of(course.queue, acquired) matches Some(
            chunk,
        ) ==> {
            &&& !course.sending.contains(chunk.index)
            &&& !course.given_up.contains(chunk.index)
            &&& !course.noted.contains_key(chunk.index)
            &&& !course.was_there(chunk.index)
        }),
{
    let next = course.after(step);
    match step {
        CourseStep::Take { acquired } => {
            if acquired && course.queue.len() > 0 {
                lemma_take(course, file_size, chunk_size);
            }
        },
        CourseStep::Arrive { chunk, etag } => {
            assert(course.places(chunk.index) == 1);
            chunks_lie_in_the_file(file_size as nat, chunk_size as nat, chunk.index as nat);
            assert forall|i: usize| i < next.start.len() implies #[trigger] next.places(i) == 1 by {
                assert(course.places(i) == 1);
            }
            assert forall|i: usize| i < next.progress.len() implies #[trigger] next.progress[
                i as int
            ] == next.entry(i, file_size, chunk_size) by {
                assert(course.progress[i as int] == course.entry(i, file_size, chunk_size));
            }
        },
        CourseStep::GiveUp { chunk } => {
            assert(course.places(chunk.index) == 1);
            assert forall|i: usize| i < next.start.len() implies #[trigger] next.places(i) == 1 by {
                assert(course.places(i) == 1);
            }
            assert forall|i: usize| i < next.progress.len() implies #[trigger] next.progress[
                i as int
            ] == next.entry(i, file_size, chunk_size) by {
                assert(course.progress[i as int] == course.entry(i, file_size, chunk_size));
            }
        },
    }
}

/// A call on a pool.
pub enum PoolCall {
    /// A worker is to start: `claim_worker`.
    Claim { acquired: bool },
    /// Up to so many workers are to start: `claim_workers`.
    ClaimAll { concurrency: usize },
    /// A worker turns to a chunk: `begin_chunk`.
    Begin { chunk: ChunkInfo, cancelled: bool },
    /// A chunk has arrived: `chunk_uploaded`.
    Uploaded { chunk: ChunkInfo, etag: Option<String>, acquired: bool },
    /// A chunk has failed for good: `chunk_failed`.
    Failed { chunk: ChunkInfo, message: String, acquired: bool },
    /// The tracker counts or measures.
    Count,
}

/// Whether a call on the pool `before` leaves `after`, as its contract has it.
pub open spec fn call_made(before: UploadPool, call: PoolCall, after: UploadPool) -> bool {
    match call {
        PoolCall::Claim { acquired } => {
            &&& exists|r: Option<ChunkInfo>| #[trigger]
                before.state.claimed(after.state, acquired, r)
            &&& after.progress == before.progress
        },
        PoolCall::ClaimAll { concurrency } => {
            &&& exists|r: Seq<ChunkInfo>| #[trigger]
                before.state.claimed_all(after.state, concurrency, r)
            &&& after.progress == before.progress
        },
        PoolCall::Begin { chunk, cancelled } => exists|action: WorkerAction| #[trigger]
            before.begun(after, chunk, cancelled, action),
        PoolCall::Uploaded { chunk, etag, acquired } => exists|action: WorkerAction| #[trigger]
            before.uploaded(after, chunk, etag, acquired, action),
        PoolCall::Failed { chunk, message, acquired } => exists|action: WorkerAction| #[trigger]
            before.failed(after, message, acquired, action),
        PoolCall::Count => after.state == before.state && after.progress == before.progress,
    }
}

impl Course {
    /// Whether a call can be made: what a worker begins, reports or gives up is with
    /// it.
    pub open spec fn can_call(self, call: PoolCall, file_size: u64, chunk_size: u64) -> bool {
        match call {
            PoolCall::Claim { .. } => true,
            PoolCall::ClaimAll { .. } => true,
            PoolCall::Begin { chunk, .. } => self.has(chunk, file_size, chunk_size),
            PoolCall::Uploaded { chunk, .. } => self.has(chunk, file_size, chunk_size),
            PoolCall::Failed { chunk, .. } => self.has(chunk, file_size, chunk_size),
            PoolCall::Count => true,
        }
    }

    /// The course after a worker has reached into the queue `n` times.
    pub open spec fn after_takes(self, n: nat) -> Course
        decreases n,
    {
        if n == 0 {
            self
        } else {
            self.after_takes((n - 1) as nat).after(CourseStep::Take { acquired: true })
        }
    }

    /// The course after a call on a pool in which a chunk has failed or not.
    pub open spec fn after_call(self, has_error: bool, call: PoolCall) -> Course {
        match call {
            PoolCall::Claim { acquired } => self.after(CourseStep::Take { acquired }),
            PoolCall::ClaimAll { concurrency } => self.after_takes(concurrency as nat),
            PoolCall::Begin { chunk, cancelled } => if has_error || cancelled {
                self.after(CourseStep::GiveUp { chunk })
            } else {
                self
            },
            PoolCall::Uploaded { chunk, etag, acquired } => self.after(
                CourseStep::Arrive { chunk, etag },
            ).after(CourseStep::Take { acquired }),
            PoolCall::Failed { chunk, .. } => self.after(CourseStep::GiveUp { chunk }),
            PoolCall::Count => self,
        }
    }

    /// Whether a pool stands where the course does: it has the same queue and the
    /// same progress, and counts as many workers as have a chunk.
    pub open spec fn fits(self, pool: UploadPool) -> bool {
        &&& self.queue == pool.state.pending_chunks@
        &&& self.progress == pool.progress.chunk_progress@
        &&& self.sending.finite()
        &&& self.sending.len() == pool.state.active_workers
    }
}

proof fn lemma_small_numbers_are_few(numbers: Set<usize>, bound: nat)
    requires
        numbers.finite(),
        forall|i: usize| #[trigger] numbers.contains(i) ==> i < bound,
    ensures
        numbers.len() <= bound,
    decreases bound,
{
    if bound == 0 {
        assert(numbers =~= Set::empty());
    } else {
        let last = (bound - 1) as nat;
        if last <= usize::MAX {
            let fewer = numbers.remove(last as usize);
            assert forall|i: usize| #[trigger] fewer.contains(i) implies i < last by {
                assert(numbers.contains(i));
            }
            lemma_small_numbers_are_few(fewer, last);
        } else {
            lemma_small_numbers_are_few(numbers, last);
        }
    }
}

pub(crate) proof fn lemma_takes(course: Course, n: nat, file_size: u64, chunk_size: u64)
    requires
        course.whole(file_size, chunk_size),
        course.sending.finite(),
    ensures
        ({
            let next = course.after_takes(n);
            let taken = if n < course.queue.len() {
                n
            } else {
                course.queue.len()
            };
            &&& next.whole(file_size, chunk_size)
            &&& next.start == course.start
            &&& next.progress == course.progress
            &&& next.given_up == course.given_up
            &&& next.noted == course.noted
            &&& next.queue == course.queue.skip(taken as int)
            &&& next.sending.finite()
            &&& next.sending.len() == course.sending.len() + taken
            &&& forall|i: usize| #[trigger] course.sending.contains(i) ==> next.sending.contains(i)
            &&& forall|k: int|
                0 <= k < taken ==> next.sending.contains((#[trigger] course.queue[k]).index)
                    && !course.sending.contains(course.queue[k].index)
        }),
    decreases n,
{
    if n == 0 {
        assert(course.queue.skip(0) =~= course.queue);
    } else {
        let m = (n - 1) as nat;
        lemma_takes(course, m, file_size, chunk_size);
        let before = course.after_takes(m);
        if before.queue.len() > 0 {
            lemma_take(before, file_size, chunk_size);
            assert(before.queue.first() == course.queue[m as int]);
            assert(before.queue.drop_first() =~= course.queue.skip(n as int));
        }
    }
}

/// The pool keeps to the course: a call that its contract allows takes a pool that
/// stands where the course does to where the course goes, with every chunk in one
/// place.
pub proof fn pool_keeps_to_its_course(
    course: Course,
    before: UploadPool,
    call: PoolCall,
    after: UploadPool,
    file_size: u64,
    chunk_size: u64,
)
    requires
        course.whole(file_size, chunk_size),
        course.fits(before),
        course.can_call(call, file_size, chunk_size),
        call_made(before, call, after),
    ensures
        course.after_call(before.state.has_error, call).whole(file_size, chunk_size),
        course.after_call(before.state.has_error, call).fits(after),
        course.after_call(before.state.has_error, call).start == course.start,
{
    assert(course.start.len() == before.progress.chunk_progress.len());
    let next = course.after_call(before.state.has_error, call);
    match call {
        PoolCall::Claim { acquired } => {
            steps_lose_and_double_no_chunk(
                course,
                CourseStep::Take { acquired },
                file_size,
                chunk_size,
            );
            lemma_small_numbers_are_few(next.sending, course.start.len());
        },
        PoolCall::ClaimAll { concurrency } => {
            lemma_takes(course, concurrency as nat, file_size, chunk_size);
            queue_deals_each_chunk_once(course.queue, concurrency as nat);
            lemma_small_numbers_are_few(next.sending, course.start.len());
        },
        PoolCall::Begin { chunk, cancelled } => {
            if before.state.has_error || cancelled {
                steps_lose_and_double_no_chunk(
                    course,
                    CourseStep::GiveUp { chunk },
                    file_size,
                    chunk_size,
                );
            }
        },
        PoolCall::Uploaded { chunk, etag, acquired } => {
            let noted = course.after(CourseStep::Arrive { chunk, etag });
            steps_lose_and_double_no_chunk(
                course,
                CourseStep::Arrive { chunk, etag },
                file_size,
                chunk_size,
            );
            steps_lose_and_double_no_chunk(
                noted,
                CourseStep::Take { acquired },
                file_size,
                chunk_size,
            );
        },
        PoolCall::Failed { chunk, .. } => {
            steps_lose_and_double_no_chunk(
                course,
                CourseStep::GiveUp { chunk },
                file_size,
                chunk_size,
            );
        },
        PoolCall::Count => {},
    }
}

/// Whether calls took a pool through these states, one by one.
pub open spec fn ran(pools: Seq<UploadPool>, calls: Seq<PoolCall>) -> bool {
    &&& pools.len() == calls.len() + 1
    &&& forall|k: int|
        0 <= k < calls.len() ==> call_made(pools[k], #[trigger] calls[k], pools[k + 1])
}

/// The course after the first `n` calls.
pub open spec fn course_at(
    course: Course,
    pools: Seq<UploadPool>,
    calls: Seq<PoolCall>,
    n: nat,
) -> Course
    decreases n,
{
    if n == 0 {
        course
    } else {
        course_at(course, pools, calls, (n - 1) as nat).after_call(
            pools[n - 1].state.has_error,
            calls[n - 1],
        )
    }
}

/// Whether each call could be made when it was.
pub open spec fn in_order(
    course: Course,
    pools: Seq<UploadPool>,
    calls: Seq<PoolCall>,
    file_size: u64,
    chunk_size: u64,
) -> bool {
    forall|k: int|
        0 <= k < calls.len() ==> course_at(course, pools, calls, k as nat).can_call(
            #[trigger] calls[k],
            file_size,
            chunk_size,
        )
}

/// Whatever the workers do, in whatever order: at any moment every chunk is in one
/// place, and the pool counts the workers that have one.
pub proof fn every_chunk_is_somewhere(
    course: Course,
    pools: Seq<UploadPool>,
    calls: Seq<PoolCall>,
    n: nat,
    file_size: u64,
    chunk_size: u64,
)
    requires
        course.whole(file_size, chunk_size),
        ran(pools, calls),
        course.fits(pools[0]),
        in_order(course, pools, calls, file_size, chunk_size),
        n <= calls.len(),
    ensures
        course_at(course, pools, calls, n).whole(file_size, chunk_size),
        course_at(course, pools, calls, n).fits(pools[n as int]),
        course_at(course, pools, calls, n).start == course.start,
    decreases n,
{
    if n > 0 {
        let m = (n - 1) as nat;
        every_chunk_is_somewhere(course, pools, calls, m, file_size, chunk_size);
        assert(call_made(pools[m as int], calls[m as int], pools[m as int + 1]));
        pool_keeps_to_its_course(
            course_at(course, pools, calls, m),
            pools[m as int],
            calls[m as int],
            pools[n as int],
            file_size,
            chunk_size,
        );
    }
}

/// Whether a call is one of an upload in which nothing fails, nobody cancels and
/// the locks are free.
pub open spec fn undisturbed(call: PoolCall) -> bool {
    match call {
        PoolCall::Claim { acquired } => acquired,
        PoolCall::ClaimAll { .. } => true,
        PoolCall::Begin { cancelled, .. } => !cancelled,
        PoolCall::Uploaded { acquired, .. } => acquired,
        PoolCall::Failed { .. } => false,
        PoolCall::Count => true,
    }
}

/// How many workers a call asks for.
pub open spec fn workers_asked(call: PoolCall) -> nat {
    match call {
        PoolCall::Claim { .. } => 1,
        PoolCall::ClaimAll { concurrency } => concurrency as nat,
        _ => 0,
    }
}

/// How many workers the first `n` calls ask for.
pub open spec fn workers_asked_by(calls: Seq<PoolCall>, n: nat) -> nat
    decreases n,
{
    if n == 0 {
        0
    } else {
        workers_asked_by(calls, (n - 1) as nat) + workers_asked(calls[n - 1])
    }
}

/// There are never more workers than were asked for. So an upload that asks once for
/// as many as its session allows has no more than these at any time.
pub proof fn no_more_workers_than_were_asked_for(
    course: Course,
    pools: Seq<UploadPool>,
    calls: Seq<PoolCall>,
    n: nat,
    file_size: u64,
    chunk_size: u64,
)
    requires
        course.whole(file_size, chunk_size),
        ran(pools, calls),
        course.fits(pools[0]),
        in_order(course, pools, calls, file_size, chunk_size),
        n <= calls.len(),
    ensures
        pools[n as int].state.active_workers <= pools[0].state.active_workers + workers_asked_by(
            calls,
            n,
        ),
    decreases n,
{
    if n > 0 {
        let m = (n - 1) as nat;
        no_more_workers_than_were_asked_for(course, pools, calls, m, file_size, chunk_size);
        every_chunk_is_somewhere(course, pools, calls, m, file_size, chunk_size);
        every_chunk_is_somewhere(course, pools, calls, n, file_size, chunk_size);
        let was = course_at(course, pools, calls, m);
        assert(was.can_call(calls[m as int], file_size, chunk_size));
        assert(call_made(pools[m as int], calls[m as int], pools[m as int + 1]));
        match calls[m as int] {
            PoolCall::ClaimAll { concurrency } => {
                lemma_takes(was, concurrency as nat, file_size, chunk_size);
            },
            _ => {},
        }
    }
}

/// Whether one of the first `n` calls was for a worker to start.
pub open spec fn started(calls: Seq<PoolCall>, n: nat) -> bool {
    exists|k: int| 0 <= k < n && workers_asked(#[trigger] calls[k]) > 0
}

/// After a call that nothing disturbs, somebody has a chunk if one still waits, once
/// workers have started.
proof fn lemma_undisturbed_call(
    course: Course,
    before: UploadPool,
    call: PoolCall,
    after: UploadPool,
    file_size: u64,
    chunk_size: u64,
)
    requires
        course.whole(file_size, chunk_size),
        course.fits(before),
        course.can_call(call, file_size, chunk_size),
        call_made(before, call, after),
        undisturbed(call),
        !before.state.has_error,
        before.state.error is None,
    ensures
        ({
            let next = course.after_call(before.state.has_error, call);
            &&& next.given_up == course.given_up
            &&& !after.state.has_error
            &&& after.state.error is None
            &&& workers_asked(call) > 0 || (course.queue.len() > 0 ==> course.sending.len() > 0)
                ==> (next.queue.len() > 0 ==> next.sending.len() > 0)
        }),
{
    pool_keeps_to_its_course(course, before, call, after, file_size, chunk_size);
    let next = course.after_call(before.state.has_error, call);
    match call {
        PoolCall::ClaimAll { concurrency } => {
            lemma_takes(course, concurrency as nat, file_size, chunk_size);
        },
        PoolCall::Claim { .. } | PoolCall::Uploaded { .. } => {
            if next.queue.len() > 0 {
                assert(next.sending.contains(course.queue.first().index));
                if next.sending.len() == 0 {
                    assert(next.sending =~= Set::empty());
                }
            }
        },
        _ => {},
    }
}

#[verifier::spinoff_prover]
#[verifier::rlimit(40)]
proof fn lemma_undisturbed(
    course: Course,
    pools: Seq<UploadPool>,
    calls: Seq<PoolCall>,
    n: nat,
    file_size: u64,
    chunk_size: u64,
)
    requires
        course.whole(file_size, chunk_size),
        ran(pools, calls),
        course.fits(pools[0]),
        in_order(course, pools, calls, file_size, chunk_size),
        forall|k: int| 0 <= k < calls.len() ==> undisturbed(#[trigger] calls[k]),
        course.given_up == Set::<usize>::empty(),
        !pools[0].state.has_error,
        pools[0].state.error is None,
        n <= calls.len(),
    ensures
        ({
            let now = course_at(course, pools, calls, n);
            &&& now.given_up == Set::<usize>::empty()
            &&& !pools[n as int].state.has_error
            &&& pools[n as int].state.error is None
            &&& started(calls, n) ==> (now.queue.len() > 0 ==> now.sending.len() > 0)
        }),
    decreases n,
{
    if n > 0 {
        let m = (n - 1) as nat;
        let call = calls[m as int];
        lemma_undisturbed(course, pools, calls, m, file_size, chunk_size);
        every_chunk_is_somewhere(course, pools, calls, m, file_size, chunk_size);
        assert(call_made(pools[m as int], calls[m as int], pools[m as int + 1]));
        assert(undisturbed(call));
        lemma_undisturbed_call(
            course_at(course, pools, calls, m),
            pools[m as int],
            call,
            pools[n as int],
            file_size,
            chunk_size,
        );
        if started(calls, n) && workers_asked(call) == 0 {
            let k = choose|k: int| 0 <= k < n && workers_asked(#[trigger] calls[k]) > 0;
            assert(k < m);
            assert(started(calls, m));
        }
    }
}

/// An upload of which nothing waits and no worker has anything, and that has given
/// up no chunk, has all that was missing: each chunk is noted with all its bytes, and
/// those that were there before are as they were. Nothing is missing then, unless
/// the file is empty; and if what was there before was there in full, as many bytes
/// have arrived as the file has.
pub proof fn emptied_upload_is_complete(course: Course, file_size: u64, chunk_size: u64)
    requires
        course.whole(file_size, chunk_size),
        course.queue.len() == 0,
        course.sending == Set::<usize>::empty(),
        course.given_up == Set::<usize>::empty(),
    ensures
        forall|i: int|
            0 <= i < course.start.len() ==> if course.start[i].complete() {
                #[trigger] course.progress[i] == course.start[i]
            } else {
                &&& course.progress[i].index == i
                &&& course.progress[i].loaded == chunk_len(
                    file_size as nat,
                    chunk_size as nat,
                    i as nat,
                )
            },
        file_size > 0 ==> pending_of(course.progress).len() == 0,
        (forall|i: int|
            0 <= i < course.start.len() && (#[trigger] course.start[i]).complete()
                ==> course.start[i].loaded == chunk_len(
                file_size as nat,
                chunk_size as nat,
                i as nat,
            )) ==> loaded_sum(course.progress) == file_size,
{
    let progress = course.progress;
    assert forall|i: int| 0 <= i < course.start.len() implies if course.start[i].complete() {
        #[trigger] course.progress[i] == course.start[i]
    } else {
        &&& course.progress[i].index == i
        &&& course.progress[i].loaded == chunk_len(file_size as nat, chunk_size as nat, i as nat)
    } by {
        let index = course.start[i].index;
        assert(course.places(index) == 1);
        assert(course.progress[index as int] == course.entry(index, file_size, chunk_size));
        chunks_lie_in_the_file(file_size as nat, chunk_size as nat, index as nat);
    }
    if file_size > 0 {
        assert forall|i: int| 0 <= i < progress.len() implies (
        #[trigger] progress[i]).complete() by {
            chunks_lie_in_the_file(file_size as nat, chunk_size as nat, i as nat);
        }
        nothing_pending_means_all_complete(progress);
    }
    if forall|i: int|
        0 <= i < course.start.len() && (#[trigger] course.start[i]).complete()
            ==> course.start[i].loaded == chunk_len(
            file_size as nat,
            chunk_size as nat,
            i as nat,
        ) {
        assert forall|i: int| 0 <= i < progress.len() implies (#[trigger] progress[i]).loaded
            == chunk_len(file_size as nat, chunk_size as nat, i as nat) by {
            if course.start[i].complete() {
                assert(course.progress[i] == course.start[i]);
            }
        }
        full_chunks_are_the_whole_file(progress, file_size as nat, chunk_size as nat);
    }
}

/// What an upload is for: once its workers have stopped, if nothing failed, nobody
/// cancelled and the locks were free, it ends well, and the session has every chunk
/// that was missing with all its bytes and the others as they were before.
pub proof fn undisturbed_upload_sends_what_is_missing(
    session: UploadSession,
    plan: PoolPlan,
    pools: Seq<UploadPool>,
    calls: Seq<PoolCall>,
    done: UploadSession,
    acquired: bool,
    r: Result<(), String>,
)
    requires
        tracks(session.chunk_progress@, session.file_size, session.chunk_size),
        plan.runs(session),
        ran(pools, calls),
        pools[0] == plan.pool,
        in_order(
            Course::begin(session.chunk_progress@, session.file_size, session.chunk_size),
            pools,
            calls,
            session.file_size,
            session.chunk_size,
        ),
        forall|k: int| 0 <= k < calls.len() ==> undisturbed(#[trigger] calls[k]),
        started(calls, calls.len()),
        pools.last().state.active_workers == 0,
        pools.last().finished(session, done, acquired, r),
    ensures
        r is Ok,
        done.same_upload(session),
        done.chunk_progress@.len() == session.chunk_progress@.len(),
        forall|i: int|
            0 <= i < session.chunk_progress@.len() ==> if session.chunk_progress@[i].complete() {
                #[trigger] done.chunk_progress@[i] == session.chunk_progress@[i]
            } else {
                &&& done.chunk_progress@[i].index == i
                &&& done.chunk_progress@[i].loaded == chunk_len(
                    session.file_size as nat,
                    session.chunk_size as nat,
                    i as nat,
                )
            },
        session.file_size > 0 ==> pending_of(done.chunk_progress@).len() == 0,
{
    let file_size = session.file_size;
    let chunk_size = session.chunk_size;
    let course = Course::begin(session.chunk_progress@, file_size, chunk_size);
    let n = calls.len();
    upload_starts_whole(session.chunk_progress@, file_size, chunk_size);
    every_chunk_is_somewhere(course, pools, calls, n, file_size, chunk_size);
    lemma_undisturbed(course, pools, calls, n, file_size, chunk_size);
    let end = course_at(course, pools, calls, n);
    assert(pools.last() == pools[n as int]);
    assert(end.sending =~= Set::empty());
    emptied_upload_is_complete(end, file_size, chunk_size);
    let before = session.chunk_progress@;
    assert forall|i: int| 0 <= i < before.len() implies if before[i].complete() {
        #[trigger] done.chunk_progress@[i] == before[i]
    } else {
        &&& done.chunk_progress@[i].index == i
        &&& done.chunk_progress@[i].loaded == chunk_len(
            file_size as nat,
            chunk_size as nat,
            i as nat,
        )
    } by {
        assert(done.chunk_progress@[i] == end.progress[i]);
    }
}

/// The first failure among the first `n` calls that found the place of the error free.
pub open spec fn first_failure(calls: Seq<PoolCall>, n: nat) -> Option<String>
    decreases n,
{
    if n == 0 {
        None
    } else {
        match first_failure(calls, (n - 1) as nat) {
            Some(message) => Some(message),
            None => match calls[n - 1] {
                PoolCall::Failed { message, acquired, .. } => if acquired {
                    Some(message)
                } else {
                    None
                },
                _ => None,
            },
        }
    }
}

/// Whether a call says that a chunk has arrived.
pub open spec fn says_arrived(call: PoolCall, index: usize) -> bool {
    call matches PoolCall::Uploaded { chunk, .. } && chunk.index == index
}

/// Whether one of the first `n` calls says that a chunk has arrived.
pub open spec fn said_arrived(calls: Seq<PoolCall>, n: nat, index: usize) -> bool {
    exists|k: int| 0 <= k < n && says_arrived(#[trigger] calls[k], index)
}

proof fn lemma_error_is_first_failure(pools: Seq<UploadPool>, calls: Seq<PoolCall>, n: nat)
    requires
        ran(pools, calls),
        pools[0].state.error is None,
        n <= calls.len(),
    ensures
        pools[n as int].state.error == first_failure(calls, n),
    decreases n,
{
    if n > 0 {
        let m = (n - 1) as nat;
        lemma_error_is_first_failure(pools, calls, m);
        assert(call_made(pools[m as int], calls[m as int], pools[m as int + 1]));
    }
}

/// What a call does to the chunks that are noted.
proof fn lemma_noted_by_call(
    course: Course,
    before: UploadPool,
    call: PoolCall,
    file_size: u64,
    chunk_size: u64,
)
    requires
        course.whole(file_size, chunk_size),
        course.fits(before),
        course.can_call(call, file_size, chunk_size),
    ensures
        ({
            let next = course.after_call(before.state.has_error, call);
            match call {
                PoolCall::Uploaded { chunk, etag, .. } => {
                    &&& !course.noted.contains_key(chunk.index)
                    &&& next.noted == course.noted.insert(chunk.index, etag)
                },
                _ => next.noted == course.noted,
            }
        }),
{
    match call {
        PoolCall::ClaimAll { concurrency } => {
            lemma_takes(course, concurrency as nat, file_size, chunk_size);
        },
        PoolCall::Uploaded { chunk, .. } => {
            assert(course.places(chunk.index) == 1);
        },
        _ => {},
    }
}

/// Whether what is noted is what the first `n` calls say has arrived, under their tags.
spec fn notes_what_arrived(
    noted: Map<usize, Option<String>>,
    calls: Seq<PoolCall>,
    n: nat,
) -> bool {
    &&& forall|i: usize| #[trigger] noted.contains_key(i) <==> said_arrived(calls, n, i)
    &&& forall|k: int|
        0 <= k < n ==> (#[trigger] calls[k] matches PoolCall::Uploaded { chunk, etag, .. }
            ==> noted.contains_key(chunk.index) && noted[chunk.index] == etag)
}

proof fn lemma_one_call_more(
    was: Map<usize, Option<String>>,
    now: Map<usize, Option<String>>,
    calls: Seq<PoolCall>,
    m: nat,
)
    requires
        notes_what_arrived(was, calls, m),
        match calls[m as int] {
            PoolCall::Uploaded { chunk, etag, .. } => {
                &&& !was.contains_key(chunk.index)
                &&& now == was.insert(chunk.index, etag)
            },
            _ => now == was,
        },
    ensures
        notes_what_arrived(now, calls, m + 1),
{
    let n = m + 1;
    let call = calls[m as int];
    assert forall|i: usize| #[trigger] now.contains_key(i) <==> said_arrived(calls, n, i) by {
        assert(was.contains_key(i) <==> said_arrived(calls, m, i));
        if said_arrived(calls, n, i) {
            let k = choose|k: int| 0 <= k < n && says_arrived(#[trigger] calls[k], i);
            if k < m {
                assert(said_arrived(calls, m, i));
            } else {
                assert(says_arrived(call, i));
            }
        }
        if said_arrived(calls, m, i) {
            let k = choose|k: int| 0 <= k < m && says_arrived(#[trigger] calls[k], i);
            assert(0 <= k < n && says_arrived(calls[k], i));
        }
        if says_arrived(call, i) {
            assert(0 <= m < n && says_arrived(calls[m as int], i));
        }
    }
    assert forall|k: int| 0 <= k < n implies (#[trigger] calls[k] matches PoolCall::Uploaded {
        chunk,
        etag,
        ..
    } ==> now.contains_key(chunk.index) && now[chunk.index] == etag) by {
        if let PoolCall::Uploaded { chunk, etag, .. } = calls[k] {
            if k < m {
                assert(was.contains_key(chunk.index) && was[chunk.index] == etag);
            }
        }
    }
}

proof fn lemma_noted_is_what_arrived(
    course: Course,
    pools: Seq<UploadPool>,
    calls: Seq<PoolCall>,
    n: nat,
    file_size: u64,
    chunk_size: u64,
)
    requires
        course.whole(file_size, chunk_size),
        ran(pools, calls),
        course.fits(pools[0]),
        in_order(course, pools, calls, file_size, chunk_size),
        course.noted == Map::<usize, Option<String>>::empty(),
        n <= calls.len(),
    ensures
        notes_what_arrived(course_at(course, pools, calls, n).noted, calls, n),
    decreases n,
{
    if n > 0 {
        let m = (n - 1) as nat;
        lemma_noted_is_what_arrived(course, pools, calls, m, file_size, chunk_size);
        every_chunk_is_somewhere(course, pools, calls, m, file_size, chunk_size);
        let was = course_at(course, pools, calls, m);
        let now = course_at(course, pools, calls, n);
        assert(was.can_call(calls[m as int], file_size, chunk_size));
        lemma_noted_by_call(was, pools[m as int], calls[m as int], file_size, chunk_size);
        lemma_one_call_more(was.noted, now.noted, calls, m);
    }
}

/// However an upload went, with failures, cancelled or in want of a lock: what its
/// session has afterwards is what arrived. Each chunk of which a call says so has all
/// its bytes and the tag of that call, and every other one is as it was before. The
/// upload ends with the first failure that was noted, and well if there is none.
pub proof fn upload_ends_as_its_calls_did(
    session: UploadSession,
    plan: PoolPlan,
    pools: Seq<UploadPool>,
    calls: Seq<PoolCall>,
    done: UploadSession,
    acquired: bool,
    r: Result<(), String>,
)
    requires
        tracks(session.chunk_progress@, session.file_size, session.chunk_size),
        plan.runs(session),
        ran(pools, calls),
        pools[0] == plan.pool,
        in_order(
            Course::begin(session.chunk_progress@, session.file_size, session.chunk_size),
            pools,
            calls,
            session.file_size,
            session.chunk_size,
        ),
        pools.last().finished(session, done, acquired, r),
    ensures
        match first_failure(calls, calls.len()) {
            Some(message) => if acquired {
                r matches Err(e) && e@ == "Upload failed: "@ + message@
            } else {
                r is Ok
            },
            None => r is Ok,
        },
        done.same_upload(session),
        done.chunk_progress@.len() == session.chunk_progress@.len(),
        forall|k: int|
            0 <= k < calls.len() ==> (#[trigger] calls[k] matches PoolCall::Uploaded {
                chunk,
                etag,
                ..
            } ==> {
                &&& chunk.index < done.chunk_progress@.len()
                &&& done.chunk_progress@[chunk.index as int].index == chunk.index
                &&& done.chunk_progress@[chunk.index as int].loaded == chunk_len(
                    session.file_size as nat,
                    session.chunk_size as nat,
                    chunk.index as nat,
                )
                &&& done.chunk_progress@[chunk.index as int].etag == etag
            }),
        forall|i: usize|
            i < session.chunk_progress@.len() && !said_arrived(calls, calls.len(), i)
                ==> #[trigger] done.chunk_progress@[i as int] == session.chunk_progress@[i as int],
{
    let file_size = session.file_size;
    let chunk_size = session.chunk_size;
    let course = Course::begin(session.chunk_progress@, file_size, chunk_size);
    let n = calls.len();
    upload_starts_whole(session.chunk_progress@, file_size, chunk_size);
    every_chunk_is_somewhere(course, pools, calls, n, file_size, chunk_size);
    lemma_error_is_first_failure(pools, calls, n);
    lemma_noted_is_what_arrived(course, pools, calls, n, file_size, chunk_size);
    let end = course_at(course, pools, calls, n);
    assert(pools.last() == pools[n as int]);
    assert(end.progress == done.chunk_progress@);
    assert forall|k: int| 0 <= k < n implies (#[trigger] calls[k] matches PoolCall::Uploaded {
        chunk,
        etag,
        ..
    } ==> {
        &&& chunk.index < done.chunk_progress@.len()
        &&& done.chunk_progress@[chunk.index as int].index == chunk.index
        &&& done.chunk_progress@[chunk.index as int].loaded == chunk_len(
            file_size as nat,
            chunk_size as nat,
            chunk.index as nat,
        )
        &&& done.chunk_progress@[chunk.index as int].etag == etag
    }) by {
        if let PoolCall::Uploaded { chunk, etag, .. } = calls[k] {
            let i = chunk.index;
            assert(end.noted.contains_key(i));
            assert(end.progress[i as int] == end.entry(i, file_size, chunk_size));
            chunks_lie_in_the_file(file_size as nat, chunk_size as nat, i as nat);
        }
    }
    assert forall|i: usize|
        i < session.chunk_progress@.len() && !said_arrived(calls, n, i) implies
        #[trigger] done.chunk_progress@[i as int] == session.chunk_progress@[i as int] by {
        assert(!end.noted.contains_key(i));
        assert(end.progress[i as int] == end.entry(i, file_size, chunk_size));
    }
}

/// Of an upload that nothing disturbs, once its workers have stopped: of every chunk
/// that was missing a call says that it has arrived.
pub proof fn undisturbed_upload_notes_the_missing(
    session: UploadSession,
    plan: PoolPlan,
    pools: Seq<UploadPool>,
    calls: Seq<PoolCall>,
    index: usize,
)
    requires
        tracks(session.chunk_progress@, session.file_size, session.chunk_size),
        plan.runs(session),
        ran(pools, calls),
        pools[0] == plan.pool,
        in_order(
            Course::begin(session.chunk_progress@, session.file_size, session.chunk_size),
            pools,
            calls,
            session.file_size,
            session.chunk_size,
        ),
        forall|k: int| 0 <= k < calls.len() ==> undisturbed(#[trigger] calls[k]),
        started(calls, calls.len()),
        pools.last().state.active_workers == 0,
        index < session.chunk_progress@.len(),
        session.chunk_progress@[index as int].loaded == 0,
    ensures
        said_arrived(calls, calls.len(), index),
{
    let file_size = session.file_size;
    let chunk_size = session.chunk_size;
    let course = Course::begin(session.chunk_progress@, file_size, chunk_size);
    let n = calls.len();
    upload_starts_whole(session.chunk_progress@, file_size, chunk_size);
    every_chunk_is_somewhere(course, pools, calls, n, file_size, chunk_size);
    lemma_undisturbed(course, pools, calls, n, file_size, chunk_size);
    lemma_noted_is_what_arrived(course, pools, calls, n, file_size, chunk_size);
    let end = course_at(course, pools, calls, n);
    assert(pools.last() == pools[n as int]);
    assert(end.sending =~= Set::empty());
    assert(end.places(index) == 1);
    assert(end.noted.contains_key(index));
}

/// The first failure that finds the place of the error free is the one that is told,
/// whatever fails after it.
pub proof fn first_failure_is_told(calls: Seq<PoolCall>, n: nat, first: int)
    requires
        n <= calls.len(),
        0 <= first < n,
        calls[first] matches PoolCall::Failed { acquired, .. } && acquired,
        forall|k: int|
            0 <= k < first ==> !(#[trigger] calls[k] matches PoolCall::Failed { acquired, .. }
                && acquired),
    ensures
        calls[first] matches PoolCall::Failed { message, .. } && first_failure(calls, n) == Some(
            message,
        ),
    decreases n,
{
    lemma_no_failure_before(calls, first as nat);
    if n > first + 1 {
        first_failure_is_told(calls, (n - 1) as nat, first);
    }
}

proof fn lemma_no_failure_before(calls: Seq<PoolCall>, n: nat)
    requires
        n <= calls.len(),
        forall|k: int|
            0 <= k < n ==> !(#[trigger] calls[k] matches PoolCall::Failed { acquired, .. }
                && acquired),
    ensures
        first_failure(calls, n) is None,
    decreases n,
{
    if n > 0 {
        lemma_no_failure_before(calls, (n - 1) as nat);
        assert(!(calls[n - 1] matches PoolCall::Failed { acquired, .. } && acquired));
    }
}

}
