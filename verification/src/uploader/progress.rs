//! Counting what has been sent, and saying so.

use crate::text::decimal;
use crate::text::decimal_text;
use std::sync::Arc;
use vstd::prelude::*;
use vstd::string::*;

verus! {

/// Two to the power of 64, where the counters wrap.
pub open spec fn wrap64() -> int {
    0x1_0000_0000_0000_0000
}

/// The whole seconds that `missing` bytes take at `speed` bytes a second.
pub open spec fn eta(total_size: nat, uploaded: nat, speed: nat) -> Option<nat> {
    if speed > 0 && uploaded < total_size {
        Some(((total_size - uploaded) as nat) / speed)
    } else {
        None
    }
}

/// How far an upload has come. `describe` says it in words.
#[derive(Clone, Copy, PartialEq, Eq, Structural)]
pub struct ProgressUpdate {
    pub total_size: u64,
    pub uploaded: u64,
    pub speed_bytes_per_sec: u64,
    pub eta_seconds: Option<u64>,
    pub concurrent_chunks: usize,
    pub total_chunks: usize,
    pub completed_chunks: usize,
}

impl ProgressUpdate {
    /// An update on an upload of `total_size` bytes, with the time that is left.
    pub fn new(
        total_size: u64,
        uploaded: u64,
        speed_bytes_per_sec: u64,
        concurrent_chunks: usize,
        total_chunks: usize,
        completed_chunks: usize,
    ) -> (r: Self)
        ensures
            r.total_size == total_size,
            r.uploaded == uploaded,
            r.speed_bytes_per_sec == speed_bytes_per_sec,
            r.concurrent_chunks == concurrent_chunks,
            r.total_chunks == total_chunks,
            r.completed_chunks == completed_chunks,
            match r.eta_seconds {
                Some(secs) => eta(
                    total_size as nat,
                    uploaded as nat,
                    speed_bytes_per_sec as nat,
                ) == Some(secs as nat),
                None => eta(total_size as nat, uploaded as nat, speed_bytes_per_sec as nat)
                    is None,
            },
    {
        let eta_seconds: Option<u64> = if speed_bytes_per_sec > 0 && uploaded < total_size {
            Some((total_size - uploaded) / speed_bytes_per_sec)
        } else {
            None
        };
        ProgressUpdate {
            total_size,
            uploaded,
            speed_bytes_per_sec,
            eta_seconds,
            concurrent_chunks,
            total_chunks,
            completed_chunks,
        }
    }

    /// The share of the upload that is done, as a numerator and a denominator.
    pub open spec fn share(self) -> (nat, nat) {
        if self.total_size == 0 {
            (1, 1)
        } else if self.uploaded < self.total_size {
            (self.uploaded as nat, self.total_size as nat)
        } else {
            (self.total_size as nat, self.total_size as nat)
        }
    }

    /// The share of the upload that is done, as a numerator and a denominator:
    /// never more than the whole, and the whole where there is nothing to send.
    pub fn progress(&self) -> (r: (u64, u64))
        ensures
            (r.0 as nat, r.1 as nat) == self.share(),
            self.total_size == 0 ==> r == (1u64, 1u64),
            self.total_size > 0 ==> r.1 == self.total_size && r.0 == if self.uploaded
                < self.total_size {
                self.uploaded
            } else {
                self.total_size
            },
    {
        if self.total_size > 0 {
            if self.uploaded < self.total_size {
                (self.uploaded, self.total_size)
            } else {
                (self.total_size, self.total_size)
            }
        } else {
            (1, 1)
        }
    }
}

/// The unit that a number of bytes is shown in.
#[derive(Debug, Clone, Copy, PartialEq, Eq, Structural)]
pub enum ByteUnit {
    B,
    KB,
    MB,
    GB,
    TB,
}

impl ByteUnit {
    /// The bytes in one of the unit: 1024 to the power of its place in the list.
    pub open spec fn bytes(self) -> nat {
        match self {
            ByteUnit::B => 1,
            ByteUnit::KB => 1024,
            ByteUnit::MB => 1024 * 1024,
            ByteUnit::GB => 1024 * 1024 * 1024,
            ByteUnit::TB => 1024 * 1024 * 1024 * 1024,
        }
    }

    /// What stands behind a number in the unit.
    pub open spec fn suffix(self) -> Seq<char> {
        match self {
            ByteUnit::B => " B"@,
            ByteUnit::KB => " KB"@,
            ByteUnit::MB => " MB"@,
            ByteUnit::GB => " GB"@,
            ByteUnit::TB => " TB"@,
        }
    }

    /// The bytes in one of the unit.
    pub fn size(self) -> (r: u64)
        ensures
            r == self.bytes(),
    {
        match self {
            ByteUnit::B => 1,
            ByteUnit::KB => 1024,
            ByteUnit::MB => 1048576,
            ByteUnit::GB => 1073741824,
            ByteUnit::TB => 1099511627776,
        }
    }

    fn suffix_text(self) -> (r: &'static str)
        ensures
            r@ == self.suffix(),
    {
        match self {
            ByteUnit::B => " B",
            ByteUnit::KB => " KB",
            ByteUnit::MB => " MB",
            ByteUnit::GB => " GB",
            ByteUnit::TB => " TB",
        }
    }
}

/// The unit that `bytes` are shown in.
pub open spec fn unit_of(bytes: nat) -> ByteUnit {
    if bytes >= ByteUnit::TB.bytes() {
        ByteUnit::TB
    } else if bytes >= ByteUnit::GB.bytes() {
        ByteUnit::GB
    } else if bytes >= ByteUnit::MB.bytes() {
        ByteUnit::MB
    } else if bytes >= ByteUnit::KB.bytes() {
        ByteUnit::KB
    } else {
        ByteUnit::B
    }
}

/// The unit that `bytes` are shown in.
pub fn byte_unit(bytes: u64) -> (r: ByteUnit)
    ensures
        r == unit_of(bytes as nat),
{
    if bytes >= 1099511627776 {
        ByteUnit::TB
    } else if bytes >= 1073741824 {
        ByteUnit::GB
    } else if bytes >= 1048576 {
        ByteUnit::MB
    } else if bytes >= 1024 {
        ByteUnit::KB
    } else {
        ByteUnit::B
    }
}

/// Bytes are shown in the largest unit that they fill: they fill theirs at least
/// once, where they are any, and no larger one.
pub proof fn unit_is_the_largest_filled(bytes: nat, larger: ByteUnit)
    requires
        unit_of(bytes).bytes() < larger.bytes(),
    ensures
        bytes > 0 ==> unit_of(bytes).bytes() <= bytes,
        bytes < larger.bytes(),
{
}

/// `bytes` with their unit, `quotient` being the text of their number in it.
pub open spec fn bytes_text(bytes: nat, quotient: Seq<char>) -> Seq<char> {
    if unit_of(bytes) == ByteUnit::B {
        decimal(bytes) + " B"@
    } else {
        quotient + unit_of(bytes).suffix()
    }
}

/// Writes a number of bytes with its unit. `quotient` is the number of bytes
/// over that of the unit, to two places, as `byte_unit` names the unit.
pub fn format_bytes(bytes: u64, quotient: &str) -> (r: String)
    ensures
        r@ == bytes_text(bytes as nat, quotient@),
{
    let unit: ByteUnit = byte_unit(bytes);
    if unit == ByteUnit::B {
        let number: String = decimal_text(bytes);
        number.concat(" B")
    } else {
        quotient.to_owned().concat(unit.suffix_text())
    }
}

/// Writes a speed: the bytes of one second, then `/s`.
pub fn format_speed(bytes_per_sec: u64, quotient: &str) -> (r: String)
    ensures
        r@ == bytes_text(bytes_per_sec as nat, quotient@) + "/s"@,
{
    format_bytes(bytes_per_sec, quotient).concat("/s")
}

/// A time to go in hours, minutes and seconds, from the largest that is not zero.
pub open spec fn eta_text(eta_seconds: Option<u64>) -> Seq<char> {
    match eta_seconds {
        None => "N/A"@,
        Some(secs) => {
            let hours = secs as nat / 3600;
            let minutes = secs as nat % 3600 / 60;
            let seconds = secs as nat % 60;
            if hours > 0 {
                decimal(hours) + "h "@ + decimal(minutes) + "m "@ + decimal(seconds) + "s"@
            } else if minutes > 0 {
                decimal(minutes) + "m "@ + decimal(seconds) + "s"@
            } else {
                decimal(seconds) + "s"@
            }
        },
    }
}

/// Writes the time that is left.
pub fn format_eta(eta_seconds: Option<u64>) -> (r: String)
    ensures
        r@ == eta_text(eta_seconds),
{
    match eta_seconds {
        None => "N/A".to_owned(),
        Some(secs) => {
            let hours: u64 = secs / 3600;
            let minutes: u64 = (secs % 3600) / 60;
            let seconds: u64 = secs % 60;
            let tail: String = decimal_text(seconds).concat("s");
            if hours > 0 {
                let h: String = decimal_text(hours).concat("h ");
                let m: String = decimal_text(minutes).concat("m ");
                let r: String = h.concat(m.as_str()).concat(tail.as_str());
                assert(r@ =~= eta_text(eta_seconds));
                r
            } else if minutes > 0 {
                let m: String = decimal_text(minutes).concat("m ");
                let r: String = m.concat(tail.as_str());
                assert(r@ =~= eta_text(eta_seconds));
                r
            } else {
                tail
            }
        },
    }
}

/// The parts of a time to go add up to it, and none but the hours reaches sixty.
pub proof fn eta_parts_add_up(secs: nat)
    ensures
        secs / 3600 * 3600 + secs % 3600 / 60 * 60 + secs % 60 == secs,
        secs % 3600 / 60 < 60,
        secs % 60 < 60,
{
    let hours = secs / 3600;
    let rest = secs % 3600;
    let minutes = rest / 60;
    let seconds = rest % 60;
    assert(secs == hours * 3600 + rest);
    assert(rest == minutes * 60 + seconds);
    assert(secs == (hours * 60 + minutes) * 60 + seconds);
    vstd::arithmetic::div_mod::lemma_fundamental_div_mod_converse(
        secs as int,
        60,
        (hours * 60 + minutes) as int,
        seconds as int,
    );
}

impl ProgressUpdate {
    /// The line that describes an update. The arguments are the texts of the
    /// share in percent and of the numbers that `format_bytes` and
    /// `format_speed` take.
    pub open spec fn line(
        self,
        percent: Seq<char>,
        uploaded: Seq<char>,
        total: Seq<char>,
        speed: Seq<char>,
    ) -> Seq<char> {
        "Progress: "@ + percent + "% ("@ + bytes_text(self.uploaded as nat, uploaded) + " / "@
            + bytes_text(self.total_size as nat, total) + ") @ "@ + bytes_text(
            self.speed_bytes_per_sec as nat,
            speed,
        ) + "/s"@ + " | ETA: "@ + eta_text(self.eta_seconds) + " | Chunks: "@ + decimal(
            self.completed_chunks as nat,
        ) + "/"@ + decimal(self.total_chunks as nat) + " ("@ + decimal(
            self.concurrent_chunks as nat,
        ) + " active)"@
    }

    /// Describes an update in one line.
    pub fn describe(&self, percent: &str, uploaded: &str, total: &str, speed: &str) -> (r: String)
        ensures
            r@ == self.line(percent@, uploaded@, total@, speed@),
    {
        let sent: String = format_bytes(self.uploaded, uploaded);
        let whole: String = format_bytes(self.total_size, total);
        let rate: String = format_speed(self.speed_bytes_per_sec, speed);
        let left: String = format_eta(self.eta_seconds);
        let done: String = decimal_text(self.completed_chunks as u64);
        let all: String = decimal_text(self.total_chunks as u64);
        let active: String = decimal_text(self.concurrent_chunks as u64);
        let r: String = "Progress: ".to_owned().concat(percent).concat("% (").concat(
            sent.as_str(),
        ).concat(" / ").concat(whole.as_str()).concat(") @ ").concat(rate.as_str()).concat(
            " | ETA: ",
        ).concat(left.as_str()).concat(" | Chunks: ").concat(done.as_str()).concat("/").concat(
            all.as_str(),
        ).concat(" (").concat(active.as_str()).concat(" active)");
        assert(r@ =~= self.line(percent@, uploaded@, total@, speed@));
        r
    }
}

/// What is told of each update.
pub trait ProgressCallback: Send + Sync {
    fn on_progress(&self, update: ProgressUpdate);
}

/// A listener that listens to nothing.
pub struct NoOpProgress;

impl ProgressCallback for NoOpProgress {
    fn on_progress(&self, _update: ProgressUpdate) {
    }
}

impl<T: ProgressCallback> ProgressCallback for Arc<T> {
    fn on_progress(&self, update: ProgressUpdate) {
        (**self).on_progress(update)
    }
}

/// The nanoseconds that a sample of the speed stays in use.
pub const WINDOW_NANOS: u128 = 10_000_000_000;

/// The nanoseconds in a millisecond.
pub const MILLI_NANOS: u128 = 1_000_000;

/// Bytes over nanoseconds.
#[derive(Debug, Clone, Copy, PartialEq, Eq, Structural)]
pub struct SpeedSample {
    pub bytes: u64,
    pub nanos: u128,
}

/// Measures the speed of the last seconds. Times are in nanoseconds from a
/// moment that the caller keeps to.
pub struct SpeedCalculator {
    samples: Vec<(u128, u64)>,
}

/// Whether a sample taken at `time` is in use at `now`.
pub open spec fn in_window(time: u128, now: u128) -> bool {
    time + WINDOW_NANOS >= now
}

/// The samples in use at `now`.
pub open spec fn window(samples: Seq<(u128, u64)>, now: u128) -> Seq<(u128, u64)> {
    samples.filter(|s: (u128, u64)| in_window(s.0, now))
}

/// The growth since the oldest sample in use, where there are two and at least a
/// millisecond lies between.
pub open spec fn growth(samples: Seq<(u128, u64)>, now: u128, total_bytes: u64) -> Option<
    SpeedSample,
> {
    if samples.len() >= 2 && now - samples[0].0 >= MILLI_NANOS {
        Some(
            SpeedSample {
                bytes: if total_bytes > samples[0].1 {
                    (total_bytes - samples[0].1) as u64
                } else {
                    0
                },
                nanos: (now - samples[0].0) as u128,
            },
        )
    } else {
        None
    }
}

impl SpeedCalculator {
    /// The samples, as time and bytes, the first taken first.
    pub closed spec fn samples(self) -> Seq<(u128, u64)> {
        self.samples@
    }

    /// A calculator that has seen nothing yet.
    pub fn new() -> (r: Self)
        ensures
            r.samples() == Seq::<(u128, u64)>::empty(),
    {
        SpeedCalculator { samples: Vec::with_capacity(32) }
    }

    /// Takes in that `total_bytes` have been sent by `now`, forgets what is older
    /// than the window, and tells the growth over it. Without a growth the speed
    /// is zero.
    pub fn record_and_calculate(&mut self, now: u128, total_bytes: u64) -> (r: Option<SpeedSample>)
        ensures
            final(self).samples() == window(old(self).samples().push((now, total_bytes)), now),
            r == growth(final(self).samples(), now, total_bytes),
    {
        self.samples.push((now, total_bytes));
        let ghost all = self.samples@;
        let ghost fresh = |s: (u128, u64)| in_window(s.0, now);
        let mut kept: Vec<(u128, u64)> = Vec::with_capacity(32);
        let mut i: usize = 0;
        proof {
            reveal(Seq::filter);
            assert(all.take(0).filter(fresh) =~= kept@);
        }
        while i < self.samples.len()
            invariant
                self.samples@ == all,
                i <= all.len(),
                fresh == (|s: (u128, u64)| in_window(s.0, now)),
                kept@ == all.take(i as int).filter(fresh),
            decreases all.len() - i,
        {
            let sample: (u128, u64) = self.samples[i];
            proof {
                reveal(Seq::filter);
                assert(all.take(i + 1).drop_last() =~= all.take(i as int));
                assert(all.take(i + 1).last() == sample);
            }
            if now <= WINDOW_NANOS || sample.0 >= now - WINDOW_NANOS {
                assert(fresh(sample));
                kept.push(sample);
            }
            i = i + 1;
        }
        assert(all.take(all.len() as int) =~= all);
        self.samples = kept;
        if self.samples.len() >= 2 {
            let oldest: (u128, u64) = self.samples[0];
            if now >= oldest.0 && now - oldest.0 >= MILLI_NANOS {
                let bytes: u64 = if total_bytes > oldest.1 {
                    total_bytes - oldest.1
                } else {
                    0
                };
                return Some(SpeedSample { bytes, nanos: now - oldest.0 });
            }
        }
        None
    }
}

/// The sample that was taken last is in use, and all that are in use are.
pub proof fn window_keeps_the_latest(samples: Seq<(u128, u64)>, now: u128, total_bytes: u64)
    ensures
        window(samples.push((now, total_bytes)), now).len() > 0,
        window(samples.push((now, total_bytes)), now).last() == (now, total_bytes),
        forall|i: int|
            0 <= i < window(samples.push((now, total_bytes)), now).len() ==> in_window(
                (#[trigger] window(samples.push((now, total_bytes)), now)[i]).0,
                now,
            ),
{
    let fresh = |s: (u128, u64)| in_window(s.0, now);
    let all = samples.push((now, total_bytes));
    reveal(Seq::filter);
    assert(all.drop_last() =~= samples);
    assert(fresh(all.last()));
    broadcast use vstd::seq_lib::group_filter_ensures;
}

/// The samples that a calculator holds after these were taken in, one by one.
pub open spec fn held_after(taken: Seq<(u128, u64)>) -> Seq<(u128, u64)>
    decreases taken.len(),
{
    if taken.len() == 0 {
        Seq::empty()
    } else {
        window(held_after(taken.drop_last()).push(taken.last()), taken.last().0)
    }
}

/// Whether no sample was taken before an earlier one.
pub open spec fn in_time(taken: Seq<(u128, u64)>) -> bool {
    forall|i: int, j: int| 0 <= i < j < taken.len() ==> taken[i].0 <= taken[j].0
}

proof fn lemma_window_of_window(samples: Seq<(u128, u64)>, earlier: u128, now: u128)
    requires
        earlier <= now,
    ensures
        window(window(samples, earlier), now) == window(samples, now),
    decreases samples.len(),
{
    reveal(Seq::filter);
    if samples.len() > 0 {
        let rest = samples.drop_last();
        lemma_window_of_window(rest, earlier, now);
        if in_window(samples.last().0, earlier) {
            let held = window(rest, earlier);
            assert(window(samples, earlier) == held.push(samples.last()));
            assert(held.push(samples.last()).drop_last() =~= held);
        }
    } else {
        assert(window(window(samples, earlier), now) =~= window(samples, now));
    }
}

proof fn lemma_window_of_push(samples: Seq<(u128, u64)>, sample: (u128, u64), now: u128)
    requires
        in_window(sample.0, now),
    ensures
        window(samples.push(sample), now) == window(samples, now).push(sample),
{
    reveal(Seq::filter);
    assert(samples.push(sample).drop_last() =~= samples);
}

proof fn lemma_held_is_window(taken: Seq<(u128, u64)>)
    requires
        taken.len() > 0,
        in_time(taken),
    ensures
        held_after(taken) == window(taken, taken.last().0),
    decreases taken.len(),
{
    let rest = taken.drop_last();
    let last = taken.last();
    assert(rest.push(last) =~= taken);
    lemma_window_of_push(rest, last, last.0);
    lemma_window_of_push(held_after(rest), last, last.0);
    if rest.len() > 0 {
        assert(rest.last() == taken[taken.len() - 2]);
        lemma_held_is_window(rest);
        lemma_window_of_window(rest, rest.last().0, last.0);
    }
}

proof fn lemma_window_is_tail(taken: Seq<(u128, u64)>, now: u128, first: int)
    requires
        in_time(taken),
        0 <= first <= taken.len(),
        forall|i: int| 0 <= i < first ==> !in_window((#[trigger] taken[i]).0, now),
        first < taken.len() ==> in_window(taken[first].0, now),
    ensures
        window(taken, now) == taken.skip(first),
    decreases taken.len(),
{
    reveal(Seq::filter);
    if taken.len() > 0 {
        let rest = taken.drop_last();
        if first < taken.len() {
            assert(taken[first].0 <= taken.last().0);
            lemma_window_is_tail(rest, now, first);
            assert(rest.skip(first).push(taken.last()) =~= taken.skip(first));
        } else {
            assert(!in_window(taken[taken.len() - 1].0, now));
            lemma_window_is_tail(rest, now, rest.len() as int);
            assert(rest.skip(rest.len() as int) =~= taken.skip(first));
        }
    } else {
        assert(window(taken, now) =~= taken.skip(first));
    }
}

/// However often the speed was measured, as long as time went forward: what is held
/// are the samples of the last ten seconds, and the growth is that since the first of
/// them, where there is another and at least a millisecond has passed.
pub proof fn growth_is_since_the_first_recent_sample(taken: Seq<(u128, u64)>, first: int)
    requires
        in_time(taken),
        0 <= first < taken.len(),
        taken[first].0 + 10_000_000_000 >= taken.last().0,
        forall|i: int|
            0 <= i < first ==> (#[trigger] taken[i]).0 + 10_000_000_000 < taken.last().0,
    ensures
        held_after(taken) == taken.skip(first),
        ({
            let (now, total_bytes) = taken.last();
            let (since, bytes) = taken[first];
            growth(held_after(taken), now, total_bytes) == if first < taken.len() - 1 && now
                - since >= 1_000_000 {
                Some(
                    SpeedSample {
                        bytes: if total_bytes > bytes {
                            (total_bytes - bytes) as u64
                        } else {
                            0
                        },
                        nanos: (now - since) as u128,
                    },
                )
            } else {
                None
            }
        }),
{
    lemma_held_is_window(taken);
    lemma_window_is_tail(taken, taken.last().0, first);
}

/// The counters of one upload. They wrap at two to the power of 64.
pub struct ProgressTracker {
    pub total_size: u64,
    pub uploaded_bytes: u64,
    pub active_chunks: u64,
    pub total_chunks: usize,
    pub completed_chunks: u64,
    pub speed_calc: SpeedCalculator,
    pub cached_speed: u64,
}

/// What a tracker knew when its speed was measured: the bytes sent, and their
/// growth where there was one.
#[derive(Debug, Clone, Copy, PartialEq, Eq, Structural)]
pub struct SpeedReading {
    pub uploaded: u64,
    pub growth: Option<SpeedSample>,
}

impl ProgressTracker {
    /// Whether all but the counters of bytes and chunks is as in `other`.
    pub open spec fn same_upload(self, other: ProgressTracker) -> bool {
        &&& self.total_size == other.total_size
        &&& self.total_chunks == other.total_chunks
        &&& self.speed_calc == other.speed_calc
        &&& self.cached_speed == other.cached_speed
    }

    /// Whether `after` counts so many bytes more, and nothing else differs.
    pub open spec fn added(self, after: ProgressTracker, bytes: u64) -> bool {
        &&& after.uploaded_bytes == (self.uploaded_bytes + bytes) % wrap64()
        &&& after.active_chunks == self.active_chunks
        &&& after.completed_chunks == self.completed_chunks
        &&& after.same_upload(self)
    }

    /// Whether `after` counts so many bytes less, and nothing else differs.
    pub open spec fn took_back(self, after: ProgressTracker, bytes: u64) -> bool {
        &&& after.uploaded_bytes == (self.uploaded_bytes - bytes) % wrap64()
        &&& after.active_chunks == self.active_chunks
        &&& after.completed_chunks == self.completed_chunks
        &&& after.same_upload(self)
    }

    /// Whether `after` and `r` are what comes of a measurement at `now`.
    pub open spec fn measured(self, after: ProgressTracker, now: u128, r: SpeedReading) -> bool {
        &&& r.uploaded == self.uploaded_bytes
        &&& after.speed_calc.samples() == window(
            self.speed_calc.samples().push((now, r.uploaded)),
            now,
        )
        &&& r.growth == growth(after.speed_calc.samples(), now, r.uploaded)
        &&& after.total_size == self.total_size
        &&& after.uploaded_bytes == self.uploaded_bytes
        &&& after.active_chunks == self.active_chunks
        &&& after.total_chunks == self.total_chunks
        &&& after.completed_chunks == self.completed_chunks
        &&& after.cached_speed == self.cached_speed
    }

    /// Whether `after` and `r` are what comes of a reading at this speed.
    pub open spec fn updated(
        self,
        after: ProgressTracker,
        reading: SpeedReading,
        speed: u64,
        r: ProgressUpdate,
    ) -> bool {
        &&& after.cached_speed == speed
        &&& after.total_size == self.total_size
        &&& after.uploaded_bytes == self.uploaded_bytes
        &&& after.active_chunks == self.active_chunks
        &&& after.total_chunks == self.total_chunks
        &&& after.completed_chunks == self.completed_chunks
        &&& after.speed_calc == self.speed_calc
        &&& r.total_size == self.total_size
        &&& r.uploaded == reading.uploaded
        &&& r.speed_bytes_per_sec == speed
        &&& r.concurrent_chunks == self.active_chunks as usize
        &&& r.total_chunks == self.total_chunks
        &&& r.completed_chunks == self.completed_chunks as usize
        &&& match r.eta_seconds {
            Some(secs) => eta(r.total_size as nat, r.uploaded as nat, speed as nat) == Some(
                secs as nat,
            ),
            None => eta(r.total_size as nat, r.uploaded as nat, speed as nat) is None,
        }
    }

    /// A tracker of which no byte has been sent.
    pub fn new(total_size: u64, total_chunks: usize) -> (r: Self)
        ensures
            r.total_size == total_size,
            r.uploaded_bytes == 0,
            r.active_chunks == 0,
            r.total_chunks == total_chunks,
            r.completed_chunks == 0,
            r.speed_calc.samples() == Seq::<(u128, u64)>::empty(),
            r.cached_speed == 0,
    {
        ProgressTracker {
            total_size,
            uploaded_bytes: 0,
            active_chunks: 0,
            total_chunks,
            completed_chunks: 0,
            speed_calc: SpeedCalculator::new(),
            cached_speed: 0,
        }
    }

    /// A chunk is being sent.
    pub fn start_chunk(&mut self)
        ensures
            final(self).active_chunks == (old(self).active_chunks + 1) % wrap64(),
            final(self).completed_chunks == old(self).completed_chunks,
            final(self).uploaded_bytes == old(self).uploaded_bytes,
            final(self).same_upload(*old(self)),
    {
        self.active_chunks = self.active_chunks.wrapping_add(1);
    }

    /// A chunk has arrived.
    pub fn complete_chunk(&mut self)
        ensures
            final(self).active_chunks == (old(self).active_chunks - 1) % wrap64(),
            final(self).completed_chunks == (old(self).completed_chunks + 1) % wrap64(),
            final(self).uploaded_bytes == old(self).uploaded_bytes,
            final(self).same_upload(*old(self)),
    {
        self.active_chunks = self.active_chunks.wrapping_sub(1);
        self.completed_chunks = self.completed_chunks.wrapping_add(1);
    }

    /// `bytes` more have been sent.
    pub fn add_bytes(&mut self, bytes: u64)
        ensures
            old(self).added(*final(self), bytes),
            final(self).uploaded_bytes == (old(self).uploaded_bytes + bytes) % wrap64(),
            final(self).active_chunks == old(self).active_chunks,
            final(self).completed_chunks == old(self).completed_chunks,
            final(self).same_upload(*old(self)),
    {
        self.uploaded_bytes = self.uploaded_bytes.wrapping_add(bytes);
    }

    /// `bytes` that have been sent do not count after all.
    pub fn reset_chunk_bytes(&mut self, bytes: u64)
        ensures
            old(self).took_back(*final(self), bytes),
            final(self).uploaded_bytes == (old(self).uploaded_bytes - bytes) % wrap64(),
            final(self).active_chunks == old(self).active_chunks,
            final(self).completed_chunks == old(self).completed_chunks,
            final(self).same_upload(*old(self)),
    {
        self.uploaded_bytes = self.uploaded_bytes.wrapping_sub(bytes);
    }

    /// The bytes that have been sent.
    pub fn total_uploaded(&self) -> (r: u64)
        ensures
            r == self.uploaded_bytes,
    {
        self.uploaded_bytes
    }

    /// Measures the speed at `now`.
    pub fn measure(&mut self, now: u128) -> (r: SpeedReading)
        ensures
            old(self).measured(*final(self), now, r),
            r.uploaded == old(self).uploaded_bytes,
            final(self).speed_calc.samples() == window(
                old(self).speed_calc.samples().push((now, r.uploaded)),
                now,
            ),
            r.growth == growth(final(self).speed_calc.samples(), now, r.uploaded),
            final(self).total_size == old(self).total_size,
            final(self).uploaded_bytes == old(self).uploaded_bytes,
            final(self).active_chunks == old(self).active_chunks,
            final(self).total_chunks == old(self).total_chunks,
            final(self).completed_chunks == old(self).completed_chunks,
            final(self).cached_speed == old(self).cached_speed,
    {
        let uploaded: u64 = self.total_uploaded();
        let growth: Option<SpeedSample> = self.speed_calc.record_and_calculate(now, uploaded);
        SpeedReading { uploaded, growth }
    }

    /// The update that follows a reading. `speed` is the quotient of the growth
    /// that was read, and zero where there was none.
    pub fn create_update(&mut self, reading: SpeedReading, speed: u64) -> (r: ProgressUpdate)
        ensures
            old(self).updated(*final(self), reading, speed, r),
            final(self).cached_speed == speed,
            final(self).total_size == old(self).total_size,
            final(self).uploaded_bytes == old(self).uploaded_bytes,
            final(self).active_chunks == old(self).active_chunks,
            final(self).total_chunks == old(self).total_chunks,
            final(self).completed_chunks == old(self).completed_chunks,
            final(self).speed_calc == old(self).speed_calc,
            r.total_size == old(self).total_size,
            r.uploaded == reading.uploaded,
            r.speed_bytes_per_sec == speed,
            r.concurrent_chunks == old(self).active_chunks as usize,
            r.total_chunks == old(self).total_chunks,
            r.completed_chunks == old(self).completed_chunks as usize,
            match r.eta_seconds {
                Some(secs) => eta(
                    r.total_size as nat,
                    r.uploaded as nat,
                    speed as nat,
                ) == Some(secs as nat),
                None => eta(r.total_size as nat, r.uploaded as nat, speed as nat) is None,
            },
    {
        self.cached_speed = speed;
        ProgressUpdate::new(
            self.total_size,
            reading.uploaded,
            speed,
            self.active_chunks as usize,
            self.total_chunks,
            self.completed_chunks as usize,
        )
    }
}

/// The bytes of one attempt to send a chunk, counted as they leave.
pub struct StreamProgress {
    pub bytes_sent: u64,
}

impl StreamProgress {
    /// An attempt of which nothing has left yet.
    pub fn new() -> (r: Self)
        ensures
            r.bytes_sent == 0,
    {
        StreamProgress { bytes_sent: 0 }
    }

    /// `len` bytes leave: the attempt and the whole upload count them.
    pub fn on_bytes(&mut self, tracker: &mut ProgressTracker, len: u64)
        ensures
            final(self).bytes_sent == (old(self).bytes_sent + len) % wrap64(),
            old(tracker).added(*final(tracker), len),
            final(tracker).uploaded_bytes == (old(tracker).uploaded_bytes + len) % wrap64(),
            final(tracker).active_chunks == old(tracker).active_chunks,
            final(tracker).completed_chunks == old(tracker).completed_chunks,
            final(tracker).same_upload(*old(tracker)),
    {
        self.bytes_sent = self.bytes_sent.wrapping_add(len);
        tracker.add_bytes(len);
    }
}

/// A counter after the pieces `pieces` have been counted, one by one.
pub open spec fn counted(start: int, pieces: Seq<u64>) -> int
    decreases pieces.len(),
{
    if pieces.len() == 0 {
        start
    } else {
        (counted(start, pieces.drop_last()) + pieces.last()) % wrap64()
    }
}

proof fn lemma_counted_in_range(start: int, pieces: Seq<u64>)
    requires
        0 <= start < wrap64(),
    ensures
        0 <= counted(start, pieces) < wrap64(),
    decreases pieces.len(),
{
}

/// An attempt that fails leaves no bytes behind: whatever pieces were counted, by
/// the attempt from zero and by the tracker from `uploaded`, taking back what the
/// attempt counted brings the tracker back to `uploaded`.
pub proof fn failed_attempt_counts_for_nothing(uploaded: u64, pieces: Seq<u64>)
    ensures
        (counted(uploaded as int, pieces) - counted(0, pieces)) % wrap64() == uploaded,
    decreases pieces.len(),
{
    if pieces.len() > 0 {
        failed_attempt_counts_for_nothing(uploaded, pieces.drop_last());
        lemma_counted_in_range(uploaded as int, pieces.drop_last());
        lemma_counted_in_range(0, pieces.drop_last());
        let a = counted(uploaded as int, pieces.drop_last());
        let b = counted(0, pieces.drop_last());
        let x = pieces.last() as int;
        let m = wrap64();
        assert((a + x) % m == if a + x < m {
            a + x
        } else {
            a + x - m
        });
        assert((b + x) % m == if b + x < m {
            b + x
        } else {
            b + x - m
        });
        assert((a - b) % m == if a >= b {
            a - b
        } else {
            a - b + m
        });
    }
}

/// The time to go is the whole seconds that the missing bytes take: they do not fit into
/// less, and not all of a further second is needed. There is none where nothing moves or
/// nothing is missing.
pub proof fn time_to_go_is_what_the_missing_bytes_take(total_size: nat, uploaded: nat, speed: nat)
    ensures
        eta(total_size, uploaded, speed) is Some <==> speed > 0 && uploaded < total_size,
        eta(total_size, uploaded, speed) matches Some(secs) ==> secs * speed <= total_size
            - uploaded < (secs + 1) * speed,
{
    if speed > 0 && uploaded < total_size {
        let missing = total_size - uploaded;
        let secs = missing / speed as int;
        vstd::arithmetic::div_mod::lemma_fundamental_div_mod(missing, speed as int);
        vstd::arithmetic::div_mod::lemma_mod_bound(missing, speed as int);
        assert(speed * secs == secs * speed) by (nonlinear_arith);
        assert((secs + 1) * speed == secs * speed + speed) by (nonlinear_arith);
    }
}

/// Each unit is 1024 of the one before.
pub proof fn units_grow_by_1024()
    ensures
        ByteUnit::B.bytes() == 1,
        ByteUnit::KB.bytes() == 1024 * ByteUnit::B.bytes(),
        ByteUnit::MB.bytes() == 1024 * ByteUnit::KB.bytes(),
        ByteUnit::GB.bytes() == 1024 * ByteUnit::MB.bytes(),
        ByteUnit::TB.bytes() == 1024 * ByteUnit::GB.bytes(),
{
}

/// Bytes are shown as they are up to a kilobyte, and from there on as the given number of
/// the largest unit that they fill.
pub proof fn bytes_are_shown_in_their_unit(bytes: nat, quotient: Seq<char>)
    ensures
        bytes < 1024 ==> bytes_text(bytes, quotient) == decimal(bytes) + " B"@,
        1024 <= bytes < 1_048_576 ==> bytes_text(bytes, quotient) == quotient + " KB"@,
        1_048_576 <= bytes < 1_073_741_824 ==> bytes_text(bytes, quotient) == quotient + " MB"@,
        1_073_741_824 <= bytes < 1_099_511_627_776 ==> bytes_text(bytes, quotient) == quotient
            + " GB"@,
        1_099_511_627_776 <= bytes ==> bytes_text(bytes, quotient) == quotient + " TB"@,
{
}

/// A time of hours, minutes and seconds is written as these, from the largest that is not
/// zero.
pub proof fn time_to_go_is_written_in_its_parts(hours: nat, minutes: nat, seconds: nat)
    requires
        minutes < 60,
        seconds < 60,
        hours * 3600 + minutes * 60 + seconds <= u64::MAX,
    ensures
        eta_text(None) == "N/A"@,
        eta_text(Some((hours * 3600 + minutes * 60 + seconds) as u64)) == if hours > 0 {
            decimal(hours) + "h "@ + decimal(minutes) + "m "@ + decimal(seconds) + "s"@
        } else if minutes > 0 {
            decimal(minutes) + "m "@ + decimal(seconds) + "s"@
        } else {
            decimal(seconds) + "s"@
        },
{
    let total = hours * 3600 + minutes * 60 + seconds;
    let rest = minutes * 60 + seconds;
    vstd::arithmetic::div_mod::lemma_fundamental_div_mod_converse(
        total as int,
        3600,
        hours as int,
        rest as int,
    );
    vstd::arithmetic::div_mod::lemma_fundamental_div_mod_converse(
        rest as int,
        60,
        minutes as int,
        seconds as int,
    );
    vstd::arithmetic::div_mod::lemma_fundamental_div_mod_converse(
        total as int,
        60,
        (hours * 60 + minutes) as int,
        seconds as int,
    );
}

/// Trackers of the same upload differ in what they have counted alone.
pub proof fn same_upload_keeps_all_but_the_counts(one: ProgressTracker, other: ProgressTracker)
    requires
        one.same_upload(other),
    ensures
        one == (ProgressTracker {
            uploaded_bytes: one.uploaded_bytes,
            active_chunks: one.active_chunks,
            completed_chunks: one.completed_chunks,
            ..other
        }),
{
}

/// Bytes that are counted are counted as they are, as long as the counter can hold them;
/// and bytes that are taken back leave the tracker as it was before they were counted.
pub proof fn taking_back_undoes_counting(
    before: ProgressTracker,
    between: ProgressTracker,
    after: ProgressTracker,
    bytes: u64,
)
    requires
        before.added(between, bytes),
        between.took_back(after, bytes),
    ensures
        before.uploaded_bytes + bytes <= u64::MAX ==> between.uploaded_bytes
            == before.uploaded_bytes + bytes,
        between == (ProgressTracker { uploaded_bytes: between.uploaded_bytes, ..before }),
        after == before,
{
}

/// An update tells what the tracker has counted and the reading that it follows, and a time
/// to go that fits them; and the tracker keeps the speed and nothing else of it.
pub proof fn updates_tell_what_was_counted(
    before: ProgressTracker,
    after: ProgressTracker,
    reading: SpeedReading,
    speed: u64,
    r: ProgressUpdate,
)
    requires
        before.updated(after, reading, speed, r),
    ensures
        after == (ProgressTracker { cached_speed: speed, ..before }),
        r.total_size == before.total_size,
        r.uploaded == reading.uploaded,
        r.speed_bytes_per_sec == speed,
        r.total_chunks == before.total_chunks,
        before.active_chunks <= usize::MAX ==> r.concurrent_chunks == before.active_chunks,
        before.completed_chunks <= usize::MAX ==> r.completed_chunks == before.completed_chunks,
        r.eta_seconds is Some <==> speed > 0 && reading.uploaded < before.total_size,
        r.eta_seconds matches Some(secs) ==> secs * speed <= before.total_size - reading.uploaded
            < (secs + 1) * speed,
{
    time_to_go_is_what_the_missing_bytes_take(
        r.total_size as nat,
        r.uploaded as nat,
        speed as nat,
    );
}

/// The share that is done lies between nothing and the whole; it is the whole exactly when
/// nothing is missing, and else the bytes over the size.
pub proof fn share_is_at_most_the_whole(update: ProgressUpdate)
    ensures
        0 <= update.share().0 <= update.share().1,
        update.share().1 > 0,
        update.share().0 == update.share().1 <==> update.uploaded >= update.total_size,
        update.uploaded < update.total_size ==> update.share() == (
            update.uploaded as nat,
            update.total_size as nat,
        ),
{
}

/// A tracker that is measured a second time within ten seconds, and at least a millisecond
/// after the first, tells by how much its bytes have grown since then and in what time.
/// Measuring changes none of its counts.
pub proof fn second_measurement_tells_the_growth(
    before: ProgressTracker,
    first: ProgressTracker,
    counted: ProgressTracker,
    second: ProgressTracker,
    then: u128,
    now: u128,
    one: SpeedReading,
    other: SpeedReading,
)
    requires
        before.speed_calc.samples().len() == 0,
        before.measured(first, then, one),
        counted.speed_calc == first.speed_calc,
        counted.measured(second, now, other),
        then + 1_000_000 <= now <= then + 10_000_000_000,
    ensures
        one.uploaded == before.uploaded_bytes,
        one.growth is None,
        other.uploaded == counted.uploaded_bytes,
        other.growth matches Some(growth) && growth.nanos == now - then && growth.bytes == (
        if counted.uploaded_bytes > before.uploaded_bytes {
            counted.uploaded_bytes - before.uploaded_bytes
        } else {
            0
        }),
        first == (ProgressTracker { speed_calc: first.speed_calc, ..before }),
        second == (ProgressTracker { speed_calc: second.speed_calc, ..counted }),
{
    let taken = seq![(then, one.uploaded), (now, other.uploaded)];
    growth_is_since_the_first_recent_sample(taken, 0);
    let a = taken.drop_last();
    assert(a =~= seq![(then, one.uploaded)]);
    assert(a.drop_last() =~= Seq::empty());
    assert(held_after(a.drop_last()) =~= Seq::empty());
    growth_is_since_the_first_recent_sample(a, 0);
    assert(before.speed_calc.samples() =~= Seq::empty());
    assert(first.speed_calc.samples() == held_after(a));
    assert(second.speed_calc.samples() == held_after(taken));
}

/// A line about an update tells, in this order: the share, the bytes that have been sent and
/// all bytes, the speed, the time to go, and the chunks that are complete, all chunks and
/// those being sent.
pub proof fn lines_tell_the_whole_update(
    update: ProgressUpdate,
    percent: Seq<char>,
    uploaded: Seq<char>,
    total: Seq<char>,
    speed: Seq<char>,
)
    ensures
        update.line(percent, uploaded, total, speed) == "Progress: "@ + percent + "% ("@
            + bytes_text(update.uploaded as nat, uploaded) + " / "@ + bytes_text(
            update.total_size as nat,
            total,
        ) + ") @ "@ + bytes_text(update.speed_bytes_per_sec as nat, speed) + "/s | ETA: "@
            + eta_text(update.eta_seconds) + " | Chunks: "@ + decimal(
            update.completed_chunks as nat,
        ) + "/"@ + decimal(update.total_chunks as nat) + " ("@ + decimal(
            update.concurrent_chunks as nat,
        ) + " active)"@,
{
    reveal_strlit("/s");
    reveal_strlit(" | ETA: ");
    reveal_strlit("/s | ETA: ");
    assert("/s | ETA: "@ =~= "/s"@ + " | ETA: "@);
    let head = "Progress: "@ + percent + "% ("@ + bytes_text(update.uploaded as nat, uploaded)
        + " / "@ + bytes_text(update.total_size as nat, total) + ") @ "@ + bytes_text(
        update.speed_bytes_per_sec as nat,
        speed,
    );
    assert(head + "/s"@ + " | ETA: "@ =~= head + "/s | ETA: "@);
}

}
