//! Sending one chunk again and again until it arrives or the retries are used up.

use crate::uploader::error::UploadError;
use crate::uploader::progress::wrap64;
use crate::uploader::progress::ProgressTracker;
use crate::uploader::Delay;
use crate::uploader::UploaderConfig;
use vstd::arithmetic::power2::pow2;
use vstd::prelude::*;
use vstd::string::*;

verus! {

/// Why a chunk was given up.
pub enum ChunkFailure {
    /// The upload was cancelled.
    Cancelled,
    /// The upload was cancelled while a retry waited.
    CancelledDuringDelay,
    /// The file could not be opened.
    Stream(UploadError),
    /// The last attempt failed, for this cause.
    Send(String),
}

impl ChunkFailure {
    /// The sentence that a user reads.
    pub open spec fn text(self) -> Seq<char> {
        match self {
            ChunkFailure::Cancelled => "Upload cancelled"@,
            ChunkFailure::CancelledDuringDelay => "Upload cancelled during retry delay"@,
            ChunkFailure::Stream(e) => e.text(),
            ChunkFailure::Send(cause) => cause@,
        }
    }

    /// The sentence that a user reads.
    pub fn message(&self) -> (r: String)
        ensures
            r@ == self.text(),
    {
        match self {
            ChunkFailure::Cancelled => "Upload cancelled".to_owned(),
            ChunkFailure::CancelledDuringDelay => "Upload cancelled during retry delay".to_owned(),
            ChunkFailure::Stream(e) => e.message(),
            ChunkFailure::Send(cause) => cause.clone(),
        }
    }
}

/// What is done next for a chunk.
pub enum RetryAction {
    /// Wait so long, or until the upload is cancelled.
    Wait(Delay),
    /// Open the file and send the chunk.
    Send,
    /// The chunk has arrived, under this tag.
    Done(Option<String>),
    /// The chunk is given up.
    Fail(ChunkFailure),
}

/// The wait before the attempt `attempt`, in nanoseconds: the base, doubled with
/// each attempt up to the tenth, but never more than the longest wait.
pub open spec fn retry_nanos(config: UploaderConfig, attempt: nat) -> nat {
    let doublings: nat = if attempt < 10 {
        attempt
    } else {
        10
    };
    let wanted = config.base_millis() * pow2(doublings) * 1_000_000;
    if wanted < config.retry_max_delay.nanos {
        wanted
    } else {
        config.retry_max_delay.nanos as nat
    }
}

/// No wait is longer than the longest, and no later wait shorter than an earlier one.
pub proof fn waits_grow_up_to_the_longest(config: UploaderConfig, earlier: nat, later: nat)
    requires
        earlier <= later,
    ensures
        retry_nanos(config, earlier) <= retry_nanos(config, later),
        retry_nanos(config, later) <= config.retry_max_delay.nanos,
{
    let a: nat = if earlier < 10 {
        earlier
    } else {
        10
    };
    let b: nat = if later < 10 {
        later
    } else {
        10
    };
    let base = config.base_millis();
    if a < b {
        vstd::arithmetic::power2::lemma_pow2_strictly_increases(a, b);
    }
    assert(base * pow2(a) <= base * pow2(b)) by (nonlinear_arith)
        requires
            pow2(a) <= pow2(b),
    ;
}

/// The attempts to send one chunk.
pub struct ChunkAttempts {
    pub config: UploaderConfig,
    pub attempt: u32,
}

impl ChunkAttempts {
    /// Whether the attempt is one that is allowed.
    pub open spec fn allowed(self) -> bool {
        self.attempt <= self.config.max_retries
    }

    /// What comes first in an attempt.
    pub open spec fn first_action(self, cancelled: bool, action: RetryAction) -> bool {
        if cancelled {
            action == RetryAction::Fail(ChunkFailure::Cancelled)
        } else if self.attempt == 0 {
            action is Send
        } else {
            action matches RetryAction::Wait(delay) && delay.nanos == retry_nanos(
                self.config,
                self.attempt as nat,
            )
        }
    }

    /// The first attempt.
    pub fn new(config: UploaderConfig) -> (r: Self)
        ensures
            r.config == config,
            r.attempt == 0,
            r.allowed(),
    {
        ChunkAttempts { config, attempt: 0 }
    }

    /// Starts an attempt: nothing is sent once the upload is cancelled, and every
    /// attempt but the first waits.
    pub fn begin(&self, cancelled: bool) -> (r: RetryAction)
        requires
            !cancelled && self.attempt > 0 ==> self.config.wait_fits(self.attempt as nat),
        ensures
            self.first_action(cancelled, r),
    {
        if cancelled {
            return RetryAction::Fail(ChunkFailure::Cancelled);
        }
        if self.attempt > 0 {
            return RetryAction::Wait(self.delay());
        }
        RetryAction::Send
    }

    /// The wait before this attempt.
    pub fn delay(&self) -> (r: Delay)
        requires
            self.config.wait_fits(self.attempt as nat),
        ensures
            r.nanos == retry_nanos(self.config, self.attempt as nat),
    {
        let base: u64 = self.config.retry_base_delay.as_millis() as u64;
        let doublings: u64 = if self.attempt < 10 {
            self.attempt as u64
        } else {
            10
        };
        proof {
            vstd::arithmetic::power2::lemma2_to64();
            if doublings < 10 {
                vstd::arithmetic::power2::lemma_pow2_strictly_increases(doublings as nat, 10);
            }
            vstd::bits::lemma_u64_shl_is_mul(1, doublings);
        }
        let factor: u64 = 1u64 << doublings;
        let delay_ms: u64 = base * factor;
        let wanted: Delay = Delay::from_millis(delay_ms);
        if wanted.nanos < self.config.retry_max_delay.nanos {
            wanted
        } else {
            self.config.retry_max_delay
        }
    }

    /// A wait has ended, of itself or because the upload was cancelled.
    pub fn waited(&self, cancelled: bool) -> (r: RetryAction)
        ensures
            r == if cancelled {
                RetryAction::Fail(ChunkFailure::CancelledDuringDelay)
            } else {
                RetryAction::Send
            },
    {
        if cancelled {
            RetryAction::Fail(ChunkFailure::CancelledDuringDelay)
        } else {
            RetryAction::Send
        }
    }

    /// The file could not be opened, which no retry mends.
    pub fn stream_failed(&self, cause: &str) -> (r: RetryAction)
        ensures
            r matches RetryAction::Fail(ChunkFailure::Stream(UploadError::FileReadError(m))) && m@
                == "Failed to create stream: "@ + cause@,
    {
        let m: String = "Failed to create stream: ".to_owned().concat(cause);
        RetryAction::Fail(ChunkFailure::Stream(UploadError::FileReadError(m)))
    }

    /// The chunk has arrived.
    pub fn sent(&self, etag: Option<String>) -> (r: RetryAction)
        ensures
            r == RetryAction::Done(etag),
    {
        RetryAction::Done(etag)
    }

    /// Whether `after` and `action` are what comes of a failed attempt.
    pub open spec fn goes_on(
        self,
        after: ChunkAttempts,
        cause: String,
        cancelled: bool,
        action: RetryAction,
    ) -> bool {
        &&& after.config == self.config
        &&& match next_attempt(self.attempt as nat, self.config.max_retries as nat) {
            None => action == RetryAction::Fail(ChunkFailure::Send(cause)) && after.attempt
                == self.attempt,
            Some(n) => after.attempt == n && after.first_action(cancelled, action),
        }
    }

    /// An attempt has failed after `bytes_sent` bytes, which then do not count. The
    /// chunk is given up where this was the last attempt; else the next one starts.
    pub fn send_failed(
        &mut self,
        tracker: &mut ProgressTracker,
        bytes_sent: u64,
        cause: String,
        cancelled: bool,
    ) -> (r: RetryAction)
        requires
            old(self).allowed(),
            !cancelled && old(self).attempt < old(self).config.max_retries ==> old(self).config.wait_fits(old(self).attempt as nat + 1),
        ensures
            old(self).goes_on(*final(self), cause, cancelled, r),
            old(tracker).took_back(*final(tracker), bytes_sent),
            final(tracker).uploaded_bytes == (old(tracker).uploaded_bytes - bytes_sent)
                % wrap64(),
            final(tracker).active_chunks == old(tracker).active_chunks,
            final(tracker).completed_chunks == old(tracker).completed_chunks,
            final(tracker).same_upload(*old(tracker)),
            final(self).config == old(self).config,
            final(self).allowed(),
            match next_attempt(old(self).attempt as nat, old(self).config.max_retries as nat) {
                None => r == RetryAction::Fail(ChunkFailure::Send(cause)) && final(self).attempt
                    == old(self).attempt,
                Some(n) => final(self).attempt == n && final(self).first_action(cancelled, r),
            },
    {
        tracker.reset_chunk_bytes(bytes_sent);
        if self.attempt == self.config.max_retries {
            return RetryAction::Fail(ChunkFailure::Send(cause));
        }
        self.attempt = self.attempt + 1;
        self.begin(cancelled)
    }
}

/// The attempt that follows a failed one, if one does.
pub open spec fn next_attempt(attempt: nat, max_retries: nat) -> Option<nat> {
    if attempt == max_retries {
        None
    } else {
        Some(attempt + 1)
    }
}

/// The attempt that runs after `failures` attempts have failed, if one does.
pub open spec fn attempt_after(failures: nat, max_retries: nat) -> Option<nat>
    decreases failures,
{
    if failures == 0 {
        Some(0)
    } else {
        match attempt_after((failures - 1) as nat, max_retries) {
            Some(attempt) => next_attempt(attempt, max_retries),
            None => None,
        }
    }
}

/// A chunk is sent once, and again after each failure until the retries are used
/// up: it is given up exactly when one attempt more than the retries has failed.
pub proof fn chunk_is_tried_once_and_for_each_retry(failures: nat, max_retries: nat)
    ensures
        attempt_after(failures, max_retries) == if failures <= max_retries {
            Some(failures)
        } else {
            None
        },
    decreases failures,
{
    if failures > 0 {
        chunk_is_tried_once_and_for_each_retry((failures - 1) as nat, max_retries);
    }
}

/// What an attempt starts with: nothing once the upload is cancelled; the sending, where
/// it is the first; and else a wait that is the base in whole milliseconds, doubled once
/// for each attempt before it but ten times at most, and cut to the longest wait.
pub proof fn attempts_wait_their_turn(attempts: ChunkAttempts, cancelled: bool, action: RetryAction)
    requires
        attempts.first_action(cancelled, action),
    ensures
        cancelled ==> action == RetryAction::Fail(ChunkFailure::Cancelled),
        !cancelled && attempts.attempt == 0 ==> action is Send,
        !cancelled && attempts.attempt > 0 ==> {
            let base = (attempts.config.retry_base_delay.nanos / 1_000_000) as u64;
            let doublings: nat = if attempts.attempt < 10 {
                attempts.attempt as nat
            } else {
                10
            };
            let wanted = base * pow2(doublings) * 1_000_000;
            let longest = attempts.config.retry_max_delay.nanos;
            &&& action matches RetryAction::Wait(delay)
            &&& delay.nanos == if wanted < longest {
                wanted
            } else {
                longest as int
            }
        },
{
}

/// Each wait is twice the one before, until it reaches the longest or has been doubled
/// ten times.
pub proof fn waits_double(
    config: UploaderConfig,
    attempt: u32,
    action: RetryAction,
    next: RetryAction,
)
    requires
        0 < attempt < u32::MAX,
        (ChunkAttempts { config, attempt }).first_action(false, action),
        (ChunkAttempts { config, attempt: (attempt + 1) as u32 }).first_action(false, next),
    ensures
        action matches RetryAction::Wait(d) && next matches RetryAction::Wait(e) && (if attempt
            >= 10 {
            e.nanos == d.nanos
        } else if 2 * d.nanos < config.retry_max_delay.nanos {
            e.nanos == 2 * d.nanos
        } else {
            e.nanos == config.retry_max_delay.nanos
        }),
{
    if attempt < 10 {
        let base = config.base_millis();
        vstd::arithmetic::power2::lemma_pow2_unfold((attempt + 1) as nat);
        let p = pow2(attempt as nat);
        assert(base * (2 * p) * 1_000_000 == 2 * (base * p * 1_000_000)) by (nonlinear_arith);
    }
}

/// A chunk whose attempt has failed is given up with that cause exactly where it was the
/// last attempt that is allowed; else the next attempt follows, unless the upload is
/// cancelled, after the wait that is due to it.
pub proof fn failed_attempts_are_followed_by_the_next(
    before: ChunkAttempts,
    after: ChunkAttempts,
    cause: String,
    cancelled: bool,
    action: RetryAction,
)
    requires
        before.goes_on(after, cause, cancelled, action),
        before.attempt <= before.config.max_retries,
    ensures
        after.config == before.config,
        before.attempt == before.config.max_retries ==> action == RetryAction::Fail(
            ChunkFailure::Send(cause),
        ),
        before.attempt < before.config.max_retries ==> after.attempt == before.attempt + 1,
        before.attempt < before.config.max_retries && cancelled ==> action == RetryAction::Fail(
            ChunkFailure::Cancelled,
        ),
        before.attempt < before.config.max_retries && !cancelled ==> {
            let base = (before.config.retry_base_delay.nanos / 1_000_000) as u64;
            let doublings: nat = if before.attempt + 1 < 10 {
                (before.attempt + 1) as nat
            } else {
                10
            };
            let wanted = base * pow2(doublings) * 1_000_000;
            let longest = before.config.retry_max_delay.nanos;
            &&& action matches RetryAction::Wait(delay)
            &&& delay.nanos == if wanted < longest {
                wanted
            } else {
                longest as int
            }
        },
{
    if before.attempt < before.config.max_retries {
        attempts_wait_their_turn(after, cancelled, action);
    }
}

}
