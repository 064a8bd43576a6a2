//! Monotonic capture time.
//!
//! Every frame and audio chunk is stamped with a [`Timestamp`] at the moment
//! of capture, and everything downstream (A/V sync, event correlation, RTP
//! timestamps) derives from that stamp.
use core::ops::{Add, Sub};
use std::time::{Duration, Instant};
use vstd::prelude::*;
use vstd::std_specs::ops::{AddSpecImpl, SubSpecImpl};

verus! {

/// A reading of the operating system's monotonic clock.
#[verifier::external_type_specification]
#[verifier::external_body]
pub struct ExInstant(Instant);

/// The total number of nanoseconds in a [`Duration`].
pub uninterp spec fn duration_nanos(d: Duration) -> nat;

/// The longest representable [`Duration`], in nanoseconds: `u64::MAX` seconds
/// and one nanosecond less than another second.
pub open spec fn max_nanos() -> nat {
    u64::MAX as nat * 1_000_000_000 + 999_999_999
}

/// `Duration::as_nanos` returns the total number of nanoseconds, which never
/// exceeds that of `Duration::MAX`.
pub assume_specification[ Duration::as_nanos ](d: &Duration) -> (n: u128)
    ensures
        n as nat == duration_nanos(*d),
        n as nat <= max_nanos(),
;

/// `Duration::from_nanos` makes a duration of that many nanoseconds.
pub assume_specification[ Duration::from_nanos ](nanos: u64) -> (d: Duration)
    ensures
        duration_nanos(d) == nanos as nat,
;

/// `Duration::from_millis` makes a duration of that many milliseconds.
pub assume_specification[ Duration::from_millis ](millis: u64) -> (d: Duration)
    ensures
        duration_nanos(d) == millis as nat * 1_000_000,
;

/// `Duration::from_secs` makes a duration of that many whole seconds.
pub assume_specification[ Duration::from_secs ](secs: u64) -> (d: Duration)
    ensures
        duration_nanos(d) == secs as nat * 1_000_000_000,
;

/// `Duration::checked_add` is the exact sum, or `None` if that would exceed
/// the longest duration.
pub assume_specification[ Duration::checked_add ](a: Duration, b: Duration) -> (r: Option<Duration>)
    ensures
        r is Some <==> duration_nanos(a) + duration_nanos(b) <= max_nanos(),
        r matches Some(d) ==> duration_nanos(d) == duration_nanos(a) + duration_nanos(b),
;

/// `Duration::checked_sub` is the exact difference, or `None` if that would
/// be negative.
pub assume_specification[ Duration::checked_sub ](a: Duration, b: Duration) -> (r: Option<Duration>)
    ensures
        r is Some <==> duration_nanos(a) >= duration_nanos(b),
        r matches Some(d) ==> duration_nanos(d) == duration_nanos(a) - duration_nanos(b),
;

/// `Duration::saturating_sub` is the exact difference, or zero if that would
/// be negative.
pub assume_specification[ Duration::saturating_sub ](a: Duration, b: Duration) -> (d: Duration)
    ensures
        duration_nanos(d) == since_nanos(duration_nanos(a), duration_nanos(b)),
;

/// The nanoseconds from one reading of the monotonic clock to another, zero if
/// they are reversed.
pub uninterp spec fn nanos_between(later: Instant, earlier: Instant) -> nat;

/// `Instant::saturating_duration_since` is the time from one reading of the
/// monotonic clock to another: a function of the two readings alone.
pub assume_specification[ Instant::saturating_duration_since ](
    later: &Instant,
    earlier: Instant,
) -> (d: Duration)
    ensures
        duration_nanos(d) == nanos_between(*later, earlier),
;

/// The time from `earlier` to `later`, zero if they are reversed.
pub open spec fn since_nanos(later: nat, earlier: nat) -> nat {
    if later >= earlier {
        (later - earlier) as nat
    } else {
        0
    }
}

/// The monotonic clock, with the readings taken of it so far.
struct Clock {
    readings: Ghost<Seq<Instant>>,
}

/// `Instant::now` reads the monotonic clock. The reading is taken, and it is no
/// earlier than any reading taken before: none of those is behind it, and each
/// is at most as far from any origin as it is.
#[verifier::external_body]
fn read_clock(clock: &mut Clock) -> (moment: Instant)
    ensures
        final(clock).readings@ == old(clock).readings@.push(moment),
        forall|k: int|
            0 <= k < old(clock).readings@.len() ==> nanos_between(
                #[trigger] old(clock).readings@[k],
                moment,
            ) == 0,
        forall|k: int, origin: Instant|
            0 <= k < old(clock).readings@.len() ==> #[trigger] nanos_between(
                old(clock).readings@[k],
                origin,
            ) <= nanos_between(moment, origin),
{
    Instant::now()
}

/// The monotonic origin that timestamps are measured against, started once per
/// process.
pub struct Epoch {
    origin: Instant,
    clock: Clock,
}

impl Epoch {
    /// The reading of the clock that the epoch started with.
    pub closed spec fn origin(&self) -> Instant {
        self.origin
    }

    /// All readings of the clock, from the origin on.
    pub closed spec fn readings(&self) -> Seq<Instant> {
        self.clock.readings@
    }

    /// Whether one more reading of the clock gave `ts` and left the epoch as
    /// `after`: the timestamp is the time from the origin to the reading, and no
    /// earlier reading is further from the origin.
    pub open spec fn reads(&self, ts: Timestamp, after: Epoch) -> bool {
        &&& after.origin() == self.origin()
        &&& after.readings().len() == self.readings().len() + 1
        &&& after.readings() == self.readings().push(after.readings().last())
        &&& ts@ == nanos_between(after.readings().last(), self.origin())
        &&& ts@ <= max_nanos()
        &&& forall|k: int|
            0 <= k < self.readings().len() ==> nanos_between(
                #[trigger] self.readings()[k],
                self.origin(),
            ) <= ts@
    }

    /// Starts an epoch at the current moment.
    pub fn start() -> (epoch: Epoch)
        ensures
            epoch.readings() == seq![epoch.origin()],
    {
        let mut clock = Clock { readings: Ghost(Seq::empty()) };
        let origin = read_clock(&mut clock);
        assert(clock.readings@ =~= seq![origin]);
        Epoch { origin, clock }
    }
}

/// A monotonic capture timestamp: an offset from the process epoch, with
/// nanosecond resolution.
///
/// Timestamps are process-local and are not wall-clock times. The view is the
/// offset in nanoseconds.
#[derive(Debug, Clone, Copy, PartialEq, Eq, PartialOrd, Ord, Hash)]
pub struct Timestamp(Duration);

impl View for Timestamp {
    type V = nat;

    open spec fn view(&self) -> nat {
        duration_nanos(self.offset())
    }
}

impl Timestamp {
    /// The offset from the process epoch.
    pub closed spec fn offset(&self) -> Duration {
        self.0
    }

    /// Captures the current monotonic time against `epoch`.
    ///
    /// How much time that is rests on the clock. It is never less than an
    /// earlier reading gave.
    pub fn now(epoch: &mut Epoch) -> (ts: Timestamp)
        ensures
            old(epoch).reads(ts, *final(epoch)),
    {
        let moment = read_clock(&mut epoch.clock);
        let elapsed = moment.saturating_duration_since(epoch.origin);
        let nanos: u128 = elapsed.as_nanos();
        assert(nanos as nat <= max_nanos());
        assert(epoch.readings().last() == moment);
        Timestamp(elapsed)
    }

    /// Builds a timestamp from an explicit offset since the process epoch.
    pub fn from_offset(offset: Duration) -> (ts: Timestamp)
        ensures
            ts.offset() == offset,
    {
        Timestamp(offset)
    }

    /// Returns this timestamp's offset from the process epoch.
    pub fn as_duration(&self) -> (d: Duration)
        ensures
            d == self.offset(),
    {
        self.0
    }

    /// Returns this timestamp's offset from the process epoch in nanoseconds.
    pub fn as_nanos(&self) -> (n: u128)
        ensures
            n as nat == self@,
            n as nat <= max_nanos(),
    {
        self.0.as_nanos()
    }

    /// Returns how much monotonic time has passed since this timestamp,
    /// zero if it is in the future.
    ///
    /// How much that is rests on the clock; it is always the saturating distance
    /// from this timestamp to one taken now.
    pub fn elapsed(&self, epoch: &mut Epoch) -> (d: Duration)
        ensures
            exists|now: Timestamp|
                {
                    &&& #[trigger] old(epoch).reads(now, *final(epoch))
                    &&& duration_nanos(d) == since_nanos(now@, self@)
                },
    {
        let now = Timestamp::now(epoch);
        now.saturating_since(*self)
    }

    /// Returns the duration from `earlier` to `self`, or `None` if `earlier`
    /// is actually later than `self`.
    pub fn checked_since(&self, earlier: Timestamp) -> (r: Option<Duration>)
        ensures
            r is Some <==> self@ >= earlier@,
            r matches Some(d) ==> duration_nanos(d) == self@ - earlier@,
    {
        self.0.checked_sub(earlier.0)
    }

    /// Returns the duration from `earlier` to `self`, zero if `earlier` is
    /// actually later than `self`.
    pub fn saturating_since(&self, earlier: Timestamp) -> (d: Duration)
        ensures
            duration_nanos(d) == since_nanos(self@, earlier@),
    {
        self.0.saturating_sub(earlier.0)
    }

    /// Whether `self` comes strictly after `earlier`.
    pub fn is_after(&self, earlier: Timestamp) -> (b: bool)
        ensures
            b == (self@ > earlier@),
    {
        self.0.as_nanos() > earlier.0.as_nanos()
    }
}

impl Default for Timestamp {
    /// The epoch itself.
    fn default() -> (ts: Timestamp)
        ensures
            ts@ == 0,
    {
        Timestamp(Duration::from_nanos(0))
    }
}

impl AddSpecImpl<Duration> for Timestamp {
    open spec fn obeys_add_spec() -> bool {
        false
    }

    open spec fn add_req(self, rhs: Duration) -> bool {
        self@ + duration_nanos(rhs) <= max_nanos()
    }

    open spec fn add_spec(self, rhs: Duration) -> Timestamp {
        choose|ts: Timestamp| #[trigger] ts@ == self@ + duration_nanos(rhs)
    }
}

impl Add<Duration> for Timestamp {
    type Output = Timestamp;

    /// The moment `rhs` after this one.
    fn add(self, rhs: Duration) -> (ts: Timestamp)
        ensures
            ts@ == self@ + duration_nanos(rhs),
    {
        match self.0.checked_add(rhs) {
            Some(offset) => Timestamp(offset),
            None => self,
        }
    }
}

impl SubSpecImpl<Timestamp> for Timestamp {
    open spec fn obeys_sub_spec() -> bool {
        false
    }

    open spec fn sub_req(self, rhs: Timestamp) -> bool {
        true
    }

    open spec fn sub_spec(self, rhs: Timestamp) -> Duration {
        choose|d: Duration| #[trigger] duration_nanos(d) == since_nanos(self@, rhs@)
    }
}

impl Sub<Timestamp> for Timestamp {
    type Output = Duration;

    /// Saturating difference: `later - earlier`, zero if the operands are
    /// reversed.
    fn sub(self, rhs: Timestamp) -> (d: Duration)
        ensures
            duration_nanos(d) == since_nanos(self@, rhs@),
    {
        self.saturating_since(rhs)
    }
}

/// Going forward by a duration and asking how far that was gives the duration
/// back, and asking the other way round gives zero.
pub proof fn law_difference_undoes_addition(base: nat, d: nat)
    ensures
        since_nanos(base + d, base) == d,
        since_nanos(base, base + d) == 0,
{
}

/// Going forward in two steps is going forward by their sum.
pub proof fn law_differences_add_up(first: nat, second: nat, third: nat)
    requires
        first <= second <= third,
    ensures
        since_nanos(second, first) + since_nanos(third, second) == since_nanos(third, first),
{
}

/// Readings taken so far are still there after further ones.
proof fn lemma_readings_stay(epochs: Seq<Epoch>, times: Seq<Timestamp>, i: int, j: int)
    requires
        epochs.len() == times.len() + 1,
        forall|k: int|
            0 <= k < times.len() ==> (#[trigger] epochs[k]).reads(times[k], epochs[k + 1]),
        0 <= i <= j <= times.len(),
    ensures
        epochs[j].origin() == epochs[i].origin(),
        epochs[j].readings().len() == epochs[i].readings().len() + (j - i),
        forall|k: int|
            0 <= k < epochs[i].readings().len() ==> #[trigger] epochs[j].readings()[k]
                == epochs[i].readings()[k],
    decreases j - i,
{
    if i < j {
        lemma_readings_stay(epochs, times, i, j - 1);
        assert(epochs[j - 1].reads(times[j - 1], epochs[j]));
    }
}

/// Time never runs backwards: of the timestamps taken one after the other, none
/// is earlier than one taken before it.
pub proof fn law_time_never_decreases(
    epochs: Seq<Epoch>,
    times: Seq<Timestamp>,
    i: int,
    j: int,
)
    requires
        epochs.len() == times.len() + 1,
        forall|k: int|
            0 <= k < times.len() ==> (#[trigger] epochs[k]).reads(times[k], epochs[k + 1]),
        0 <= i <= j < times.len(),
    ensures
        times[i]@ <= times[j]@,
{
    if i < j {
        lemma_readings_stay(epochs, times, i + 1, j);
        lemma_readings_stay(epochs, times, i, i + 1);
        assert(epochs[i].reads(times[i], epochs[i + 1]));
        assert(epochs[j].reads(times[j], epochs[j + 1]));
        let k = epochs[i + 1].readings().len() - 1;
        assert(epochs[j].readings()[k] == epochs[i + 1].readings()[k]);
    }
}

/// A timestamp is the time from the epoch's origin to one new reading of the
/// clock; the origin and the readings before it stay what they were.
pub proof fn law_timestamps_count_from_the_origin(epoch: Epoch, ts: Timestamp, after: Epoch)
    requires
        epoch.reads(ts, after),
    ensures
        after.origin() == epoch.origin(),
        after.readings().drop_last() == epoch.readings(),
        after.readings().len() == epoch.readings().len() + 1,
        ts@ == nanos_between(after.readings().last(), after.origin()),
        ts@ < 0x1_0000_0000_0000_0000 * 1_000_000_000,
        forall|k: int|
            0 <= k < after.readings().len() ==> nanos_between(
                #[trigger] after.readings()[k],
                after.origin(),
            ) <= ts@,
{
    assert(after.readings().drop_last() =~= epoch.readings());
    assert forall|k: int| 0 <= k < after.readings().len() implies nanos_between(
        #[trigger] after.readings()[k],
        after.origin(),
    ) <= ts@ by {
        if k < epoch.readings().len() {
            assert(after.readings()[k] == epoch.readings()[k]);
        }
    }
}

/// A timestamp counts the nanoseconds of its offset, and the longest duration is a
/// nanosecond short of one second more than 64 bits of seconds.
pub proof fn law_timestamps_count_nanoseconds(ts: Timestamp)
    ensures
        ts@ == duration_nanos(ts.offset()),
        max_nanos() + 1 == 0x1_0000_0000_0000_0000 * 1_000_000_000,
{
}

} // verus!
