//! What the workers are told, and what comes of it when each does as it is told.
//!
//! Here a worker turns only to a chunk that it was given, and reports only on a chunk
//! that it was told to send. All else, which chunks go out, with which bytes of the
//! file and how often, follows from what the pool answers.

use crate::uploader::chunk::ChunkInfo;
use crate::uploader::course::course_at;
use crate::uploader::course::in_order;
use crate::uploader::course::lemma_takes;
use crate::uploader::course::pool_keeps_to_its_course;
use crate::uploader::course::queued;
use crate::uploader::course::ran;
use crate::uploader::course::said_arrived;
use crate::uploader::course::says_arrived;
use crate::uploader::course::started;
use crate::uploader::course::steps_lose_and_double_no_chunk;
use crate::uploader::course::undisturbed;
use crate::uploader::course::undisturbed_upload_sends_what_is_missing;
use crate::uploader::course::upload_ends_as_its_calls_did;
use crate::uploader::course::upload_starts_whole;
use crate::uploader::course::Course;
use crate::uploader::course::CourseStep;
use crate::uploader::course::PoolCall;
use crate::uploader::laws::chunks_lie_in_the_file;
use crate::uploader::laws::tracks;
use crate::uploader::pool::queue_deals_each_chunk_once;
use crate::uploader::pool::PoolPlan;
use crate::uploader::pool::UploadPool;
use crate::uploader::pool::WorkerAction;
use crate::uploader::session::UploadSession;
use vstd::prelude::*;

verus! {

/// What a call answers.
pub enum PoolReply {
    /// Chunks for workers to start with.
    Claimed(Seq<ChunkInfo>),
    /// What the worker is to do.
    Action(WorkerAction),
    /// Nothing.
    Nothing,
}

/// Whether a call on the pool `before` leaves `after` and answers `reply`, as its
/// contract has it.
pub open spec fn answered(
    before: UploadPool,
    call: PoolCall,
    after: UploadPool,
    reply: PoolReply,
) -> bool {
    match call {
        PoolCall::Claim { acquired } => {
            &&& exists|r: Option<ChunkInfo>| #[trigger]
                before.state.claimed(after.state, acquired, r) && reply == PoolReply::Claimed(
                    match r {
                        Some(c) => seq![c],
                        None => Seq::empty(),
                    },
                )
            &&& after.progress == before.progress
        },
        PoolCall::ClaimAll { concurrency } => {
            &&& reply matches PoolReply::Claimed(r) && before.state.claimed_all(
                after.state,
                concurrency,
                r,
            )
            &&& after.progress == before.progress
        },
        PoolCall::Begin { chunk, cancelled } => reply matches PoolReply::Action(action)
            && before.begun(after, chunk, cancelled, action),
        PoolCall::Uploaded { chunk, etag, acquired } => reply matches PoolReply::Action(action)
            && before.uploaded(after, chunk, etag, acquired, action),
        PoolCall::Failed { chunk, message, acquired } => reply matches PoolReply::Action(action)
            && before.failed(after, message, acquired, action),
        PoolCall::Count => {
            &&& reply is Nothing
            &&& after.state == before.state
            &&& after.progress == before.progress
        },
    }
}

/// Whether calls took a pool through these states with these answers.
pub open spec fn ran_with(
    pools: Seq<UploadPool>,
    calls: Seq<PoolCall>,
    replies: Seq<PoolReply>,
) -> bool {
    &&& pools.len() == calls.len() + 1
    &&& replies.len() == calls.len()
    &&& forall|k: int|
        0 <= k < calls.len() ==> answered(
            pools[k],
            #[trigger] calls[k],
            pools[k + 1],
            replies[k],
        )
}

/// Whether an answer gives a chunk to a worker.
pub open spec fn gives(reply: PoolReply, chunk: ChunkInfo) -> bool {
    match reply {
        PoolReply::Claimed(chunks) => chunks.contains(chunk),
        PoolReply::Action(WorkerAction::GoOn(next)) => next == chunk,
        _ => false,
    }
}

/// Whether an answer tells a worker to send a chunk.
pub open spec fn tells_to_send(reply: PoolReply, chunk: ChunkInfo) -> bool {
    reply == PoolReply::Action(WorkerAction::Send(chunk))
}

/// Whether a worker that does as it is told has been given a chunk in the first `n`
/// calls and has not turned to it yet.
pub open spec fn given(
    calls: Seq<PoolCall>,
    replies: Seq<PoolReply>,
    n: nat,
    chunk: ChunkInfo,
) -> bool
    decreases n,
{
    n > 0 && {
        let m = (n - 1) as nat;
        gives(replies[m as int], chunk) || (given(calls, replies, m, chunk) && !(
        calls[m as int] matches PoolCall::Begin { chunk: c, .. } && c == chunk))
    }
}

/// Whether a worker has been told in the first `n` calls to send a chunk and has not
/// reported on it yet.
pub open spec fn under_way(
    calls: Seq<PoolCall>,
    replies: Seq<PoolReply>,
    n: nat,
    chunk: ChunkInfo,
) -> bool
    decreases n,
{
    n > 0 && {
        let m = (n - 1) as nat;
        tells_to_send(replies[m as int], chunk) || (under_way(calls, replies, m, chunk) && !(
        calls[m as int] matches PoolCall::Uploaded { chunk: c, .. } && c == chunk) && !(
        calls[m as int] matches PoolCall::Failed { chunk: c, .. } && c == chunk))
    }
}

/// Whether each worker does as it is told: it turns to what it was given, and reports
/// on what it was told to send.
pub open spec fn obeyed(calls: Seq<PoolCall>, replies: Seq<PoolReply>) -> bool {
    forall|k: int|
        0 <= k < calls.len() ==> match #[trigger] calls[k] {
            PoolCall::Begin { chunk, .. } => given(calls, replies, k as nat, chunk),
            PoolCall::Uploaded { chunk, .. } => under_way(calls, replies, k as nat, chunk),
            PoolCall::Failed { chunk, .. } => under_way(calls, replies, k as nat, chunk),
            _ => true,
        }
}

/// Whether what the workers have is with them in the course too.
spec fn agrees(
    course: Course,
    calls: Seq<PoolCall>,
    replies: Seq<PoolReply>,
    n: nat,
    file_size: u64,
    chunk_size: u64,
) -> bool {
    &&& forall|c: ChunkInfo| #[trigger]
        given(calls, replies, n, c) ==> course.has(c, file_size, chunk_size) && !under_way(
            calls,
            replies,
            n,
            c,
        )
    &&& forall|c: ChunkInfo| #[trigger]
        under_way(calls, replies, n, c) ==> course.has(c, file_size, chunk_size)
}

proof fn lemma_answered_is_made(
    before: UploadPool,
    call: PoolCall,
    after: UploadPool,
    reply: PoolReply,
)
    requires
        answered(before, call, after, reply),
    ensures
        crate::uploader::course::call_made(before, call, after),
{
}

proof fn lemma_ran_with_ran(
    pools: Seq<UploadPool>,
    calls: Seq<PoolCall>,
    replies: Seq<PoolReply>,
)
    requires
        ran_with(pools, calls, replies),
    ensures
        ran(pools, calls),
{
    assert forall|k: int| 0 <= k < calls.len() implies crate::uploader::course::call_made(
        pools[k],
        #[trigger] calls[k],
        pools[k + 1],
    ) by {
        lemma_answered_is_made(pools[k], calls[k], pools[k + 1], replies[k]);
    }
}

/// What an answer gives comes from the queue and is with nobody before.
proof fn lemma_given_by_call(
    course: Course,
    before: UploadPool,
    call: PoolCall,
    after: UploadPool,
    reply: PoolReply,
    chunk: ChunkInfo,
    file_size: u64,
    chunk_size: u64,
)
    requires
        course.whole(file_size, chunk_size),
        course.fits(before),
        course.can_call(call, file_size, chunk_size),
        answered(before, call, after, reply),
        gives(reply, chunk),
    ensures
        course.after_call(before.state.has_error, call).has(chunk, file_size, chunk_size),
        !course.sending.contains(chunk.index),
        queued(course.queue, chunk.index),
        !(call is Begin),
{
    match call {
        PoolCall::Claim { acquired } => {
            assert(acquired && course.queue.len() > 0);
            assert(chunk == course.queue[0]);
            steps_lose_and_double_no_chunk(
                course,
                CourseStep::Take { acquired },
                file_size,
                chunk_size,
            );
        },
        PoolCall::ClaimAll { concurrency } => {
            lemma_takes(course, concurrency as nat, file_size, chunk_size);
            queue_deals_each_chunk_once(course.queue, concurrency as nat);
            let r = reply->Claimed_0;
            let k = r.index_of(chunk);
            assert(chunk == course.queue[k]);
        },
        PoolCall::Uploaded { chunk: sent, etag, acquired } => {
            let noted = course.after(CourseStep::Arrive { chunk: sent, etag });
            assert(acquired && course.queue.len() > 0);
            assert(chunk == course.queue[0]);
            assert(queued(course.queue, chunk.index));
            assert(course.places(chunk.index) == 1);
        },
        _ => {},
    }
}

/// A worker that does as it is told has only chunks that the course has with it.
proof fn lemma_obeyed(
    course: Course,
    pools: Seq<UploadPool>,
    calls: Seq<PoolCall>,
    replies: Seq<PoolReply>,
    n: nat,
    file_size: u64,
    chunk_size: u64,
)
    requires
        course.whole(file_size, chunk_size),
        course.fits(pools[0]),
        ran_with(pools, calls, replies),
        obeyed(calls, replies),
        n <= calls.len(),
    ensures
        course_at(course, pools, calls, n).whole(file_size, chunk_size),
        course_at(course, pools, calls, n).fits(pools[n as int]),
        course_at(course, pools, calls, n).start == course.start,
        agrees(course_at(course, pools, calls, n), calls, replies, n, file_size, chunk_size),
        n < calls.len() ==> course_at(course, pools, calls, n).can_call(
            calls[n as int],
            file_size,
            chunk_size,
        ),
    decreases n,
{
    if n > 0 {
        let m = (n - 1) as nat;
        let call = calls[m as int];
        let reply = replies[m as int];
        lemma_obeyed(course, pools, calls, replies, m, file_size, chunk_size);
        let was = course_at(course, pools, calls, m);
        let now = course_at(course, pools, calls, n);
        let before = pools[m as int];
        assert(answered(before, calls[m as int], pools[m as int + 1], reply));
        lemma_answered_is_made(before, call, pools[n as int], reply);
        pool_keeps_to_its_course(was, before, call, pools[n as int], file_size, chunk_size);
        assert forall|c: ChunkInfo| #[trigger] under_way(calls, replies, n, c) implies now.has(
            c,
            file_size,
            chunk_size,
        ) by {
            lemma_still_has(was, before, call, pools[n as int], reply, c, file_size, chunk_size);
            if tells_to_send(reply, c) {
                assert(given(calls, replies, m, c));
            } else {
                assert(under_way(calls, replies, m, c));
            }
        }
        assert forall|c: ChunkInfo| #[trigger] given(calls, replies, n, c) implies now.has(
            c,
            file_size,
            chunk_size,
        ) && !under_way(calls, replies, n, c) by {
            if gives(reply, c) {
                lemma_given_by_call(
                    was,
                    before,
                    call,
                    pools[n as int],
                    reply,
                    c,
                    file_size,
                    chunk_size,
                );
                if under_way(calls, replies, m, c) {
                    assert(was.has(c, file_size, chunk_size));
                }
            } else {
                assert(given(calls, replies, m, c));
                lemma_still_has(
                    was,
                    before,
                    call,
                    pools[n as int],
                    reply,
                    c,
                    file_size,
                    chunk_size,
                );
            }
        }
    }
    if n < calls.len() {
        match calls[n as int] {
            PoolCall::Begin { chunk, .. } => {
                assert(given(calls, replies, n, chunk));
            },
            PoolCall::Uploaded { chunk, .. } => {
                assert(under_way(calls, replies, n, chunk));
            },
            PoolCall::Failed { chunk, .. } => {
                assert(under_way(calls, replies, n, chunk));
            },
            _ => {},
        }
    }
}

/// A chunk that a call is not about stays with its worker; and so does one that the
/// worker is told to send.
proof fn lemma_still_has(
    course: Course,
    before: UploadPool,
    call: PoolCall,
    after: UploadPool,
    reply: PoolReply,
    chunk: ChunkInfo,
    file_size: u64,
    chunk_size: u64,
)
    requires
        course.whole(file_size, chunk_size),
        course.fits(before),
        course.can_call(call, file_size, chunk_size),
        answered(before, call, after, reply),
    ensures
        tells_to_send(reply, chunk) ==> {
            &&& call matches PoolCall::Begin { chunk: c, cancelled } && c == chunk && !cancelled
            &&& !before.state.has_error
        },
        course.has(chunk, file_size, chunk_size) && (tells_to_send(reply, chunk) || match call {
            PoolCall::Begin { chunk: c, .. } => c != chunk,
            PoolCall::Uploaded { chunk: c, .. } => c != chunk,
            PoolCall::Failed { chunk: c, .. } => c != chunk,
            _ => true,
        }) ==> course.after_call(before.state.has_error, call).has(chunk, file_size, chunk_size),
{
    match call {
        PoolCall::ClaimAll { concurrency } => {
            lemma_takes(course, concurrency as nat, file_size, chunk_size);
        },
        _ => {},
    }
}

/// Who obeys keeps in order: every call is about a chunk that is with its worker.
proof fn lemma_in_order(
    course: Course,
    pools: Seq<UploadPool>,
    calls: Seq<PoolCall>,
    replies: Seq<PoolReply>,
    file_size: u64,
    chunk_size: u64,
)
    requires
        course.whole(file_size, chunk_size),
        course.fits(pools[0]),
        ran_with(pools, calls, replies),
        obeyed(calls, replies),
    ensures
        in_order(course, pools, calls, file_size, chunk_size),
{
    assert forall|k: int| 0 <= k < calls.len() implies course_at(
        course,
        pools,
        calls,
        k as nat,
    ).can_call(#[trigger] calls[k], file_size, chunk_size) by {
        lemma_obeyed(course, pools, calls, replies, k as nat, file_size, chunk_size);
    }
}

/// An upload with obedient workers: its pool starts as planned for the session.
pub open spec fn obedient_run(
    session: UploadSession,
    plan: PoolPlan,
    pools: Seq<UploadPool>,
    calls: Seq<PoolCall>,
    replies: Seq<PoolReply>,
) -> bool {
    &&& tracks(session.chunk_progress@, session.file_size, session.chunk_size)
    &&& plan.runs(session)
    &&& ran_with(pools, calls, replies)
    &&& pools[0] == plan.pool
    &&& obeyed(calls, replies)
}

proof fn lemma_run_starts_whole(
    session: UploadSession,
    plan: PoolPlan,
    pools: Seq<UploadPool>,
    calls: Seq<PoolCall>,
    replies: Seq<PoolReply>,
)
    requires
        obedient_run(session, plan, pools, calls, replies),
    ensures
        ({
            let course = Course::begin(
                session.chunk_progress@,
                session.file_size,
                session.chunk_size,
            );
            &&& course.whole(session.file_size, session.chunk_size)
            &&& course.fits(pools[0])
            &&& course.start == session.chunk_progress@
            &&& ran(pools, calls)
            &&& in_order(course, pools, calls, session.file_size, session.chunk_size)
        }),
{
    let course = Course::begin(session.chunk_progress@, session.file_size, session.chunk_size);
    upload_starts_whole(session.chunk_progress@, session.file_size, session.chunk_size);
    lemma_ran_with_ran(pools, calls, replies);
    lemma_in_order(course, pools, calls, replies, session.file_size, session.chunk_size);
}

/// Whether a chunk is the piece of the file that its number says: it starts so many
/// chunk sizes into the file, and has a chunk size of bytes or what the file still
/// has. A file that is not cut is one piece.
pub open spec fn is_its_piece(session: UploadSession, chunk: ChunkInfo) -> bool {
    if session.chunk_size == 0 {
        chunk.index == 0 && chunk.offset == 0 && chunk.size == session.file_size
    } else {
        &&& chunk.offset == chunk.index * session.chunk_size
        &&& chunk.offset + chunk.size <= session.file_size
        &&& chunk.size == session.chunk_size || (chunk.size < session.chunk_size && chunk.offset
            + chunk.size == session.file_size)
    }
}

/// Whatever a worker is given or told to send is a chunk of the file that had not
/// arrived, with its own place in the file; and it is told to send only while nothing
/// has failed and nobody has cancelled.
pub proof fn workers_get_missing_pieces_of_the_file(
    session: UploadSession,
    plan: PoolPlan,
    pools: Seq<UploadPool>,
    calls: Seq<PoolCall>,
    replies: Seq<PoolReply>,
    k: int,
    chunk: ChunkInfo,
)
    requires
        obedient_run(session, plan, pools, calls, replies),
        0 <= k < calls.len(),
        gives(replies[k], chunk) || tells_to_send(replies[k], chunk),
    ensures
        chunk.index < session.chunk_progress@.len(),
        session.chunk_progress@[chunk.index as int].loaded == 0,
        is_its_piece(session, chunk),
        tells_to_send(replies[k], chunk) ==> {
            &&& calls[k] matches PoolCall::Begin { chunk: c, cancelled } && c == chunk
                && !cancelled
            &&& forall|j: int| 0 <= j < k ==> !((#[trigger] calls[j]) is Failed)
        },
{
    let file_size = session.file_size;
    let chunk_size = session.chunk_size;
    let course = Course::begin(session.chunk_progress@, file_size, chunk_size);
    lemma_run_starts_whole(session, plan, pools, calls, replies);
    lemma_obeyed(course, pools, calls, replies, k as nat, file_size, chunk_size);
    lemma_obeyed(course, pools, calls, replies, (k + 1) as nat, file_size, chunk_size);
    let was = course_at(course, pools, calls, k as nat);
    let now = course_at(course, pools, calls, (k + 1) as nat);
    assert(answered(pools[k], calls[k], pools[k + 1], replies[k]));
    lemma_still_has(
        was,
        pools[k],
        calls[k],
        pools[k + 1],
        replies[k],
        chunk,
        file_size,
        chunk_size,
    );
    if gives(replies[k], chunk) {
        lemma_given_by_call(
            was,
            pools[k],
            calls[k],
            pools[k + 1],
            replies[k],
            chunk,
            file_size,
            chunk_size,
        );
    } else {
        assert forall|j: int| 0 <= j < k implies !((#[trigger] calls[j]) is Failed) by {
            if calls[j] is Failed {
                lemma_failure_stays(pools, calls, replies, j, k);
            }
        }
    }
    assert(now.has(chunk, file_size, chunk_size));
    assert(now.places(chunk.index) == 1);
    lemma_its_piece(session, chunk);
}

proof fn lemma_its_piece(session: UploadSession, chunk: ChunkInfo)
    requires
        tracks(session.chunk_progress@, session.file_size, session.chunk_size),
        chunk.index < session.chunk_progress@.len(),
        chunk == crate::uploader::pool::info_of(
            session.file_size,
            session.chunk_size,
            chunk.index,
        ),
    ensures
        is_its_piece(session, chunk),
{
    chunks_lie_in_the_file(
        session.file_size as nat,
        session.chunk_size as nat,
        chunk.index as nat,
    );
}

proof fn lemma_failure_stays(
    pools: Seq<UploadPool>,
    calls: Seq<PoolCall>,
    replies: Seq<PoolReply>,
    j: int,
    k: int,
)
    requires
        ran_with(pools, calls, replies),
        0 <= j < k <= calls.len(),
        calls[j] is Failed,
    ensures
        pools[k].state.has_error,
    decreases k,
{
    assert(answered(pools[k - 1], calls[k - 1], pools[k], replies[k - 1]));
    if j < k - 1 {
        lemma_failure_stays(pools, calls, replies, j, k - 1);
    }
}

/// What a worker has been told to send waits no more and is given to nobody.
proof fn lemma_sent_is_out(
    course: Course,
    pools: Seq<UploadPool>,
    calls: Seq<PoolCall>,
    replies: Seq<PoolReply>,
    j: int,
    n: nat,
    chunk: ChunkInfo,
    file_size: u64,
    chunk_size: u64,
)
    requires
        course.whole(file_size, chunk_size),
        course.fits(pools[0]),
        ran_with(pools, calls, replies),
        obeyed(calls, replies),
        0 <= j < n <= calls.len(),
        tells_to_send(replies[j], chunk),
    ensures
        !queued(course_at(course, pools, calls, n).queue, chunk.index),
        !given(calls, replies, n, chunk),
    decreases n,
{
    let m = (n - 1) as nat;
    let call = calls[m as int];
    let reply = replies[m as int];
    lemma_obeyed(course, pools, calls, replies, m, file_size, chunk_size);
    lemma_obeyed(course, pools, calls, replies, n, file_size, chunk_size);
    let was = course_at(course, pools, calls, m);
    let now = course_at(course, pools, calls, n);
    assert(answered(pools[m as int], calls[m as int], pools[m as int + 1], reply));
    lemma_queue_shrinks(
        was,
        pools[m as int],
        call,
        pools[n as int],
        reply,
        chunk.index,
        file_size,
        chunk_size,
    );
    if gives(reply, chunk) {
        lemma_given_by_call(
            was,
            pools[m as int],
            call,
            pools[n as int],
            reply,
            chunk,
            file_size,
            chunk_size,
        );
    }
    if j == m {
        lemma_still_has(
            was,
            pools[m as int],
            call,
            pools[n as int],
            reply,
            chunk,
            file_size,
            chunk_size,
        );
        assert(given(calls, replies, m, chunk));
        assert(was.has(chunk, file_size, chunk_size));
        assert(was.places(chunk.index) == 1);
    } else {
        lemma_sent_is_out(
            course,
            pools,
            calls,
            replies,
            j,
            m,
            chunk,
            file_size,
            chunk_size,
        );
    }
}

proof fn lemma_queue_shrinks(
    course: Course,
    before: UploadPool,
    call: PoolCall,
    after: UploadPool,
    reply: PoolReply,
    index: usize,
    file_size: u64,
    chunk_size: u64,
)
    requires
        course.whole(file_size, chunk_size),
        course.fits(before),
        course.can_call(call, file_size, chunk_size),
        answered(before, call, after, reply),
    ensures
        queued(course.after_call(before.state.has_error, call).queue, index) ==> queued(
            course.queue,
            index,
        ),
{
    let next = course.after_call(before.state.has_error, call);
    if let PoolCall::ClaimAll { concurrency } = call {
        lemma_takes(course, concurrency as nat, file_size, chunk_size);
    }
    if queued(next.queue, index) {
        let k = choose|k: int| 0 <= k < next.queue.len() && (#[trigger] next.queue[k]).index == index;
        let gone = course.queue.len() - next.queue.len();
        assert(next.queue[k] == course.queue[k + gone]);
    }
}

/// No chunk is sent by two workers, or by one after another: of two times that a
/// worker is told to send, the chunks differ.
pub proof fn no_chunk_is_sent_twice(
    session: UploadSession,
    plan: PoolPlan,
    pools: Seq<UploadPool>,
    calls: Seq<PoolCall>,
    replies: Seq<PoolReply>,
    j: int,
    k: int,
    one: ChunkInfo,
    other: ChunkInfo,
)
    requires
        obedient_run(session, plan, pools, calls, replies),
        0 <= j < k < calls.len(),
        tells_to_send(replies[j], one),
        tells_to_send(replies[k], other),
    ensures
        one.index != other.index,
{
    let file_size = session.file_size;
    let chunk_size = session.chunk_size;
    let course = Course::begin(session.chunk_progress@, file_size, chunk_size);
    lemma_run_starts_whole(session, plan, pools, calls, replies);
    workers_get_missing_pieces_of_the_file(session, plan, pools, calls, replies, j, one);
    workers_get_missing_pieces_of_the_file(session, plan, pools, calls, replies, k, other);
    lemma_obeyed(course, pools, calls, replies, j as nat, file_size, chunk_size);
    lemma_obeyed(course, pools, calls, replies, k as nat, file_size, chunk_size);
    lemma_sent_is_out(
        course,
        pools,
        calls,
        replies,
        j,
        k as nat,
        one,
        file_size,
        chunk_size,
    );
    assert(calls[j] is Begin && given(calls, replies, j as nat, one));
    assert(calls[k] is Begin && given(calls, replies, k as nat, other));
    assert(course_at(course, pools, calls, j as nat).has(one, file_size, chunk_size));
    assert(course_at(course, pools, calls, k as nat).has(other, file_size, chunk_size));
}

proof fn lemma_under_way_was_sent(
    calls: Seq<PoolCall>,
    replies: Seq<PoolReply>,
    n: nat,
    chunk: ChunkInfo,
) -> (k: int)
    requires
        under_way(calls, replies, n, chunk),
    ensures
        0 <= k < n,
        tells_to_send(replies[k], chunk),
    decreases n,
{
    let m = (n - 1) as nat;
    if tells_to_send(replies[m as int], chunk) {
        m as int
    } else {
        lemma_under_way_was_sent(calls, replies, m, chunk)
    }
}

/// An upload in which nothing fails, nobody cancels and the locks are free sends what
/// is missing and nothing else: for every chunk that had not arrived a worker was told
/// to send its piece of the file. Once the workers have stopped, the upload ends well,
/// and of each of these chunks the session has as many bytes as its piece; the others
/// are as they were.
pub proof fn obedient_workers_send_the_missing_pieces(
    session: UploadSession,
    plan: PoolPlan,
    pools: Seq<UploadPool>,
    calls: Seq<PoolCall>,
    replies: Seq<PoolReply>,
    done: UploadSession,
    acquired: bool,
    r: Result<(), String>,
    index: usize,
) -> (sent: Option<(int, ChunkInfo)>)
    requires
        obedient_run(session, plan, pools, calls, replies),
        forall|k: int| 0 <= k < calls.len() ==> undisturbed(#[trigger] calls[k]),
        started(calls, calls.len()),
        pools.last().state.active_workers == 0,
        pools.last().finished(session, done, acquired, r),
        index < session.chunk_progress@.len(),
    ensures
        r is Ok,
        done.chunk_progress@.len() == session.chunk_progress@.len(),
        if session.chunk_progress@[index as int].loaded > 0 {
            done.chunk_progress@[index as int] == session.chunk_progress@[index as int]
        } else {
            &&& sent matches Some((k, chunk)) && {
                &&& 0 <= k < calls.len()
                &&& tells_to_send(replies[k], chunk)
                &&& chunk.index == index
                &&& is_its_piece(session, chunk)
                &&& done.chunk_progress@[index as int].loaded == chunk.size
            }
        },
{
    let file_size = session.file_size;
    let chunk_size = session.chunk_size;
    let course = Course::begin(session.chunk_progress@, file_size, chunk_size);
    lemma_run_starts_whole(session, plan, pools, calls, replies);
    undisturbed_upload_sends_what_is_missing(session, plan, pools, calls, done, acquired, r);
    upload_ends_as_its_calls_did(session, plan, pools, calls, done, acquired, r);
    assert(done.chunk_progress@[index as int] == done.chunk_progress@[index as int]);
    if session.chunk_progress@[index as int].loaded > 0 {
        None
    } else {
        lemma_missing_arrives(session, plan, pools, calls, replies, done, acquired, r, index);
        let k = choose|k: int| 0 <= k < calls.len() && says_arrived(#[trigger] calls[k], index);
        let chunk = calls[k]->Uploaded_chunk;
        assert(under_way(calls, replies, k as nat, chunk));
        let j = lemma_under_way_was_sent(calls, replies, k as nat, chunk);
        workers_get_missing_pieces_of_the_file(session, plan, pools, calls, replies, j, chunk);
        lemma_obeyed(course, pools, calls, replies, k as nat, file_size, chunk_size);
        assert(course_at(course, pools, calls, k as nat).has(chunk, file_size, chunk_size));
        chunks_lie_in_the_file(file_size as nat, chunk_size as nat, index as nat);
        Some((j, chunk))
    }
}

proof fn lemma_missing_arrives(
    session: UploadSession,
    plan: PoolPlan,
    pools: Seq<UploadPool>,
    calls: Seq<PoolCall>,
    replies: Seq<PoolReply>,
    done: UploadSession,
    acquired: bool,
    r: Result<(), String>,
    index: usize,
)
    requires
        obedient_run(session, plan, pools, calls, replies),
        forall|k: int| 0 <= k < calls.len() ==> undisturbed(#[trigger] calls[k]),
        started(calls, calls.len()),
        pools.last().state.active_workers == 0,
        pools.last().finished(session, done, acquired, r),
        index < session.chunk_progress@.len(),
        session.chunk_progress@[index as int].loaded == 0,
    ensures
        said_arrived(calls, calls.len(), index),
{
    let file_size = session.file_size;
    let chunk_size = session.chunk_size;
    let course = Course::begin(session.chunk_progress@, file_size, chunk_size);
    lemma_run_starts_whole(session, plan, pools, calls, replies);
    crate::uploader::course::undisturbed_upload_notes_the_missing(
        session,
        plan,
        pools,
        calls,
        index,
    );
}

}
