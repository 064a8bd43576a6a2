//! The decisions of the microphone backend: which device and configuration to
//! open, and how buffered samples become stamped chunks.
use crate::audio::{AudioCaps, AudioConfig, AudioMode, ChunkClock};
use crate::error::CaptureError;
use crate::time::Timestamp;
use vstd::prelude::*;
use vstd::string::*;

verus! {

/// Ring buffer capacity, in seconds of audio, between the audio callback and
/// the drain task.
pub const RING_BUFFER_SECS: usize = 1;

/// One input configuration range as the audio driver reports it.
#[derive(Debug, Clone, Copy, PartialEq, Eq, Structural)]
pub struct InputRange {
    pub channels: u16,
    pub min_sample_rate: u32,
    pub max_sample_rate: u32,
    /// Whether the range delivers 32-bit float samples.
    pub native_float: bool,
}

/// Checks a configuration before a device is opened.
pub fn check_config(cfg: &AudioConfig) -> (r: Result<(), CaptureError>)
    ensures
        r is Ok <==> cfg.chunk_frames != 0,
        r matches Err(e) ==> e matches CaptureError::UnsupportedConfig(m) && m@
            == "chunk_frames must be nonzero"@,
{
    if cfg.chunk_frames == 0 {
        return Err(CaptureError::UnsupportedConfig("chunk_frames must be nonzero".to_owned()));
    }
    Ok(())
}

/// Whether the name at a position is the wanted one; a device without a
/// readable name never is.
pub open spec fn name_matches(name: Option<String>, wanted: Seq<char>) -> bool {
    name matches Some(n) && n@ == wanted
}

/// The first device with the wanted name.
pub fn find_device(names: &[Option<String>], wanted: &str) -> (r: Option<usize>)
    ensures
        match r {
            Some(i) => {
                &&& i < names@.len()
                &&& names@[i as int] matches Some(name)
                &&& name@ == wanted@
                &&& name_matches(names@[i as int], wanted@)
                &&& forall|j: int| 0 <= j < i ==> !#[trigger] name_matches(names@[j], wanted@)
            },
            None => forall|j: int|
                0 <= j < names@.len() ==> !#[trigger] name_matches(names@[j], wanted@),
        },
{
    let wanted_name = wanted.to_owned();
    let mut i: usize = 0;
    while i < names.len()
        invariant
            i <= names@.len(),
            wanted_name@ == wanted@,
            forall|j: int| 0 <= j < i ==> !#[trigger] name_matches(names@[j], wanted@),
        decreases names@.len() - i,
    {
        if let Some(name) = &names[i] {
            if *name == wanted_name {
                return Some(i);
            }
        }
        i = i + 1;
    }
    None
}

/// The error when the configured device, or any default device, is missing.
pub fn device_missing(device: &Option<String>) -> (e: CaptureError)
    ensures
        e matches CaptureError::DeviceNotFound(m) && m@ == (match device {
            Some(name) => name@,
            None => "no default input device"@,
        }),
{
    match device {
        Some(name) => CaptureError::DeviceNotFound(name.clone()),
        None => CaptureError::DeviceNotFound("no default input device".to_owned()),
    }
}

/// The capture mode of a driver range.
pub open spec fn mode_of(range: InputRange) -> AudioMode {
    AudioMode {
        channels: range.channels,
        min_sample_rate: range.min_sample_rate,
        max_sample_rate: range.max_sample_rate,
    }
}

/// Maps the device's supported input ranges into capture-layer terms.
pub fn probe_caps(ranges: &[InputRange]) -> (caps: AudioCaps)
    ensures
        caps.modes@.len() == ranges@.len(),
        forall|i: int| 0 <= i < ranges@.len() ==> #[trigger] caps.modes@[i] == mode_of(ranges@[i]),
        forall|i: int|
            0 <= i < ranges@.len() ==> {
                &&& (#[trigger] caps.modes@[i]).channels == ranges@[i].channels
                &&& caps.modes@[i].min_sample_rate == ranges@[i].min_sample_rate
                &&& caps.modes@[i].max_sample_rate == ranges@[i].max_sample_rate
            },
{
    let mut modes: Vec<AudioMode> = Vec::new();
    let mut i: usize = 0;
    while i < ranges.len()
        invariant
            i <= ranges@.len(),
            modes@.len() == i,
            forall|j: int| 0 <= j < i ==> #[trigger] modes@[j] == mode_of(ranges@[j]),
        decreases ranges@.len() - i,
    {
        let range = ranges[i];
        modes.push(
            AudioMode {
                channels: range.channels,
                min_sample_rate: range.min_sample_rate,
                max_sample_rate: range.max_sample_rate,
            },
        );
        i = i + 1;
    }
    AudioCaps { modes }
}

/// Whether a range can satisfy the request: the same channel count, and the
/// requested rate within it.
pub open spec fn satisfies(range: InputRange, cfg: AudioConfig) -> bool {
    &&& range.channels == cfg.channels
    &&& range.min_sample_rate <= cfg.sample_rate <= range.max_sample_rate
}

/// Whether a range satisfies the request and is at least as good as `other`:
/// float samples are preferred.
pub open spec fn preferred(range: InputRange, other: InputRange) -> bool {
    other.native_float ==> range.native_float
}

/// Whether a choice among some ranges is the right one: among those that satisfy
/// the request, one with float samples if there is any, and the last of equally
/// good ones.
pub open spec fn rightly_chosen(
    ranges: Seq<InputRange>,
    cfg: AudioConfig,
    choice: Option<usize>,
) -> bool {
    match choice {
        Some(i) => {
            &&& i < ranges.len()
            &&& satisfies(ranges[i as int], cfg)
            &&& forall|j: int|
                0 <= j < ranges.len() && #[trigger] satisfies(ranges[j], cfg) ==> {
                    &&& preferred(ranges[i as int], ranges[j])
                    &&& j > i ==> !preferred(ranges[j], ranges[i as int])
                }
        },
        None => forall|j: int| 0 <= j < ranges.len() ==> !#[trigger] satisfies(ranges[j], cfg),
    }
}

/// Picks the input range that honors the request: among those that satisfy it,
/// one with float samples if there is any, and the last of equally good ones.
/// `None` when no range satisfies the request; the device's default
/// configuration is then used as it is.
pub fn choose_config(ranges: &[InputRange], cfg: &AudioConfig) -> (r: Option<usize>)
    ensures
        rightly_chosen(ranges@, *cfg, r),
        match r {
            Some(i) => {
                &&& i < ranges@.len()
                &&& ranges@[i as int].channels == cfg.channels
                &&& ranges@[i as int].min_sample_rate <= cfg.sample_rate
                &&& cfg.sample_rate <= ranges@[i as int].max_sample_rate
            },
            None => forall|j: int|
                0 <= j < ranges@.len() ==> (#[trigger] ranges@[j]).channels != cfg.channels
                    || cfg.sample_rate < ranges@[j].min_sample_rate || ranges@[j].max_sample_rate
                    < cfg.sample_rate,
        },
{
    let mut chosen: Option<usize> = None;
    let mut i: usize = 0;
    while i < ranges.len()
        invariant
            i <= ranges@.len(),
            match chosen {
                Some(c) => {
                    &&& c < i
                    &&& satisfies(ranges@[c as int], *cfg)
                    &&& forall|j: int|
                        0 <= j < i && #[trigger] satisfies(ranges@[j], *cfg) ==> {
                            &&& preferred(ranges@[c as int], ranges@[j])
                            &&& j > c ==> !preferred(ranges@[j], ranges@[c as int])
                        }
                },
                None => forall|j: int| 0 <= j < i ==> !#[trigger] satisfies(ranges@[j], *cfg),
            },
        decreases ranges@.len() - i,
    {
        let range = ranges[i];
        if range.channels == cfg.channels && range.min_sample_rate <= cfg.sample_rate
            && cfg.sample_rate <= range.max_sample_rate {
            match chosen {
                Some(c) => {
                    if range.native_float || !ranges[c].native_float {
                        chosen = Some(i);
                    }
                },
                None => {
                    chosen = Some(i);
                },
            }
        }
        i = i + 1;
    }
    proof {
        law_chosen_range_honors_the_request(ranges@, *cfg, chosen);
    }
    chosen
}

/// The chosen range has the requested channels and contains the requested rate;
/// every other range that does has float samples only if the chosen one has them
/// too, and comes before it if it is as good. Nothing is chosen only if no range
/// has the channels and the rate.
pub proof fn law_chosen_range_honors_the_request(
    ranges: Seq<InputRange>,
    cfg: AudioConfig,
    choice: Option<usize>,
)
    requires
        rightly_chosen(ranges, cfg, choice),
    ensures
        match choice {
            Some(i) => {
                &&& i < ranges.len()
                &&& ranges[i as int].channels == cfg.channels
                &&& ranges[i as int].min_sample_rate <= cfg.sample_rate
                &&& cfg.sample_rate <= ranges[i as int].max_sample_rate
                &&& forall|j: int|
                    0 <= j < ranges.len() && (#[trigger] ranges[j]).channels == cfg.channels
                        && ranges[j].min_sample_rate <= cfg.sample_rate && cfg.sample_rate
                        <= ranges[j].max_sample_rate ==> {
                        ||| ranges[i as int].native_float && !ranges[j].native_float
                        ||| ranges[i as int].native_float == ranges[j].native_float && j <= i
                    }
            },
            None => forall|j: int|
                0 <= j < ranges.len() ==> (#[trigger] ranges[j]).channels != cfg.channels
                    || cfg.sample_rate < ranges[j].min_sample_rate || ranges[j].max_sample_rate
                    < cfg.sample_rate,
        },
{
    if let Some(i) = choice {
        assert forall|j: int|
            0 <= j < ranges.len() && (#[trigger] ranges[j]).channels == cfg.channels
                && ranges[j].min_sample_rate <= cfg.sample_rate && cfg.sample_rate
                <= ranges[j].max_sample_rate implies {
            ||| ranges[i as int].native_float && !ranges[j].native_float
            ||| ranges[i as int].native_float == ranges[j].native_float && j <= i
        } by {
            assert(satisfies(ranges[j], cfg));
        }
    } else {
        assert forall|j: int| 0 <= j < ranges.len() implies (#[trigger] ranges[j]).channels
            != cfg.channels || cfg.sample_rate < ranges[j].min_sample_rate
            || ranges[j].max_sample_rate < cfg.sample_rate by {
            assert(!satisfies(ranges[j], cfg));
        }
    }
}

/// A device is found by its exact name; one without a readable name is not.
pub proof fn law_devices_are_found_by_name(name: String, wanted: Seq<char>)
    ensures
        name_matches(Some(name), wanted) <==> name@ == wanted,
        !name_matches(None, wanted),
{
}

/// A capture mode has the channels and the rates of its range.
pub proof fn law_modes_keep_their_ranges(range: InputRange)
    ensures
        mode_of(range).channels == range.channels,
        mode_of(range).min_sample_rate == range.min_sample_rate,
        mode_of(range).max_sample_rate == range.max_sample_rate,
{
}

/// How many samples the ring buffer holds: one second of every channel.
pub fn ring_capacity(sample_rate: u32, channels: u16) -> (n: usize)
    requires
        sample_rate as nat * channels as nat <= usize::MAX,
    ensures
        n == sample_rate as nat * channels as nat * RING_BUFFER_SECS,
        n == sample_rate as nat * channels as nat,
{
    proof {
        assert(sample_rate as nat * channels as nat * RING_BUFFER_SECS == sample_rate as nat
            * channels as nat) by (nonlinear_arith)
            requires
                RING_BUFFER_SECS == 1,
        ;
    }
    sample_rate as usize * channels as usize * RING_BUFFER_SECS
}

/// The drain side of the ring buffer: decides when a full chunk is buffered and
/// stamps it from the stream's anchor, which is taken with the first chunk.
#[derive(Debug)]
pub struct Drain {
    sample_rate: u32,
    chunk_frames: u64,
    chunk_samples: usize,
    clock: Option<ChunkClock>,
    reported_drops: u64,
}

impl Drain {
    /// Samples in a chunk.
    pub closed spec fn samples(&self) -> nat {
        self.chunk_samples as nat
    }

    /// The stream's sample rate.
    pub closed spec fn rate(&self) -> nat {
        self.sample_rate as nat
    }

    /// Frames per chunk.
    pub closed spec fn frames(&self) -> nat {
        self.chunk_frames as nat
    }

    /// The clock of the running stream, none before the first chunk.
    pub closed spec fn clock(&self) -> Option<ChunkClock> {
        self.clock
    }

    /// Lost samples that were already reported.
    pub closed spec fn reported(&self) -> nat {
        self.reported_drops as nat
    }

    /// A stream that has not delivered anything yet. A device without channels
    /// counts as mono.
    pub fn new(sample_rate: u32, channels: u16, chunk_frames: usize) -> (drain: Drain)
        requires
            chunk_frames * channels <= usize::MAX,
        ensures
            drain.rate() == sample_rate,
            drain.frames() == chunk_frames,
            drain.samples() == chunk_frames as nat * (if channels == 0 {
                1
            } else {
                channels as nat
            }),
            drain.clock() is None,
            drain.reported() == 0,
    {
        let per_frame: usize = if channels == 0 {
            1
        } else {
            channels as usize
        };
        Drain {
            sample_rate,
            chunk_frames: chunk_frames as u64,
            chunk_samples: chunk_frames * per_frame,
            clock: None,
            reported_drops: 0,
        }
    }

    /// Samples in a chunk.
    pub fn chunk_samples(&self) -> (n: usize)
        ensures
            n == self.samples(),
    {
        self.chunk_samples
    }

    /// The clock that stamps the next chunk: the running one, or one anchored at
    /// `now`.
    pub open spec fn next_clock(&self, now: nat, clock: ChunkClock) -> bool {
        match self.clock() {
            Some(running) => clock == running,
            None => {
                &&& clock.anchor() == now
                &&& clock.rate() == self.rate()
                &&& clock.step() == self.frames()
                &&& clock.emitted() == 0
            },
        }
    }

    /// Starts the stream's clock at `now`, unless it is running, and tells
    /// whether it can stamp another chunk.
    pub fn start(&mut self, now: Timestamp) -> (ready: bool)
        ensures
            final(self).clock() matches Some(clock) && old(self).next_clock(now@, clock) && ready
                == clock.can_advance(),
            old(self).clock() is Some ==> final(self).clock() == old(self).clock(),
            old(self).clock() is None ==> {
                &&& final(self).clock() matches Some(clock)
                &&& clock.anchor() == now@
                &&& clock.rate() == old(self).rate()
                &&& clock.step() == old(self).frames()
                &&& clock.emitted() == 0
            },
            final(self).rate() == old(self).rate(),
            final(self).frames() == old(self).frames(),
            final(self).samples() == old(self).samples(),
            final(self).reported() == old(self).reported(),
    {
        let clock = match self.clock {
            Some(running) => running,
            None => ChunkClock::start(now, self.sample_rate, self.chunk_frames),
        };
        self.clock = Some(clock);
        clock.has_next()
    }

    /// Whether the stream, with this many samples buffered, gives out a chunk with
    /// this timestamp, or none, and goes on as `after`.
    pub open spec fn takes(&self, buffered: nat, ts: Option<Timestamp>, after: Drain) -> bool {
        &&& ts is Some <==> buffered >= self.samples()
        &&& match ts {
            Some(ts) => {
                &&& self.clock() matches Some(clock)
                &&& after.clock() matches Some(next)
                &&& clock.stamps(ts, next)
            },
            None => after.clock() == self.clock(),
        }
        &&& after.samples() == self.samples()
    }

    /// Whether the stream, with this many samples lost in all, reports this many of
    /// them, or none, and goes on as `after`.
    pub open spec fn reports(&self, total: nat, lost: Option<u64>, after: Drain) -> bool {
        match lost {
            Some(lost) => {
                &&& lost > 0
                &&& self.reported() + lost == total
                &&& after.reported() == total
            },
            None => {
                &&& total <= self.reported()
                &&& after.reported() == self.reported()
            },
        }
    }

    /// The timestamp of the next chunk, if a whole chunk is buffered. The
    /// stream's clock must be running and able to stamp it.
    pub fn take_chunk(&mut self, buffered: usize) -> (r: Option<Timestamp>)
        requires
            buffered >= old(self).samples() ==> (old(self).clock() matches Some(clock)
                && clock.can_advance()),
        ensures
            old(self).takes(buffered as nat, r, *final(self)),
            r is Some <==> buffered >= old(self).samples(),
            r is None ==> final(self).clock() == old(self).clock(),
            r matches Some(ts) ==> {
                &&& old(self).clock() matches Some(before)
                &&& final(self).clock() matches Some(after)
                &&& before.stamps(ts, after)
            },
            final(self).rate() == old(self).rate(),
            final(self).frames() == old(self).frames(),
            final(self).samples() == old(self).samples(),
            final(self).reported() == old(self).reported(),
    {
        if buffered < self.chunk_samples {
            return None;
        }
        match self.clock {
            Some(mut clock) => {
                let ts = clock.next_timestamp();
                self.clock = Some(clock);
                Some(ts)
            },
            None => None,
        }
    }

    /// Samples lost since the last report, given the running total; `None` when
    /// there is nothing new to report.
    pub fn new_drops(&mut self, total: u64) -> (r: Option<u64>)
        ensures
            old(self).reports(total as nat, r, *final(self)),
            r == (if total > old(self).reported() {
                Some((total - old(self).reported()) as u64)
            } else {
                None
            }),
            final(self).reported() == (if total > old(self).reported() {
                total as nat
            } else {
                old(self).reported()
            }),
            final(self).clock() == old(self).clock(),
            final(self).rate() == old(self).rate(),
            final(self).frames() == old(self).frames(),
            final(self).samples() == old(self).samples(),
    {
        if total > self.reported_drops {
            let lost: u64 = total - self.reported_drops;
            self.reported_drops = total;
            Some(lost)
        } else {
            None
        }
    }
}

/// The clock of a stream is anchored when it is first needed and kept from then
/// on.
pub proof fn law_the_anchor_is_taken_once(drain: Drain, now: nat, clock: ChunkClock)
    requires
        drain.next_clock(now, clock),
    ensures
        drain.clock() matches Some(running) ==> clock == running,
        drain.clock() is None ==> {
            &&& clock.anchor() == now
            &&& clock.rate() == drain.rate()
            &&& clock.step() == drain.frames()
            &&& clock.emitted() == 0
        },
{
}

/// How many samples some reports add up to.
pub open spec fn total_reported(reports: Seq<Option<u64>>) -> nat
    decreases reports.len(),
{
    if reports.len() == 0 {
        0
    } else {
        total_reported(reports.drop_last()) + (match reports.last() {
            Some(lost) => lost as nat,
            None => 0,
        })
    }
}

/// Every lost sample is reported once: however often a stream is asked, as long as
/// the running total does not decrease, what it reports adds up to that total.
pub proof fn law_lost_samples_are_reported_once(
    drains: Seq<Drain>,
    totals: Seq<nat>,
    reports: Seq<Option<u64>>,
)
    requires
        drains.len() == totals.len() + 1,
        reports.len() == totals.len(),
        totals.len() > 0,
        drains[0].reported() == 0,
        forall|i: int|
            0 <= i < totals.len() ==> (#[trigger] drains[i]).reports(
                totals[i],
                reports[i],
                drains[i + 1],
            ),
        forall|i: int, j: int| 0 <= i <= j < totals.len() ==> totals[i] <= totals[j],
    ensures
        total_reported(reports) == totals.last(),
        drains.last().reported() == totals.last(),
    decreases totals.len(),
{
    let n = totals.len() - 1;
    assert(drains[n].reports(totals[n], reports[n], drains[n + 1]));
    let shorter = reports.drop_last();
    if n > 0 {
        let earlier = drains.drop_last();
        assert forall|i: int| 0 <= i < n implies (#[trigger] earlier[i]).reports(
            totals.drop_last()[i],
            shorter[i],
            earlier[i + 1],
        ) by {
            assert(drains[i].reports(totals[i], reports[i], drains[i + 1]));
        }
        assert forall|i: int, j: int| 0 <= i <= j < n implies totals.drop_last()[i]
            <= totals.drop_last()[j] by {
            assert(totals[i] <= totals[j]);
        }
        law_lost_samples_are_reported_once(earlier, totals.drop_last(), shorter);
        assert(totals[n - 1] <= totals[n]);
        assert(earlier.last() == drains[n]);
    } else {
        assert(total_reported(shorter) == 0);
    }
}

/// Whether the `i`-th time a stream is asked for a chunk, it has enough samples
/// buffered for one.
pub open spec fn drained(
    drains: Seq<Drain>,
    buffered: Seq<nat>,
    times: Seq<Option<Timestamp>>,
    i: int,
) -> bool {
    &&& drains[i].takes(buffered[i], times[i], drains[i + 1])
    &&& buffered[i] >= drains[0].samples()
}

/// A stream that always has enough samples buffered gives out chunk after chunk,
/// each stamped with the anchor plus the duration of the chunks before it.
pub proof fn law_drained_chunks_keep_time(
    drains: Seq<Drain>,
    buffered: Seq<nat>,
    times: Seq<Option<Timestamp>>,
    k: int,
)
    requires
        drains.len() == buffered.len() + 1,
        times.len() == buffered.len(),
        drains[0].clock() matches Some(clock) && clock.emitted() == 0 && clock.rate() > 0,
        forall|i: int| 0 <= i < buffered.len() ==> #[trigger] drained(drains, buffered, times, i),
        0 <= k < buffered.len(),
    ensures
        drains[k].samples() == drains[0].samples(),
        ({
            let clock = drains[0].clock()->Some_0;
            let frames = k * clock.step();
            &&& times[k] matches Some(ts)
            &&& (ts@ - clock.anchor()) * clock.rate() <= frames * 1_000_000_000
            &&& frames * 1_000_000_000 < (ts@ - clock.anchor() + 1) * clock.rate()
        }),
{
    lemma_drained(drains, buffered, times, k);
    let clock = drains[0].clock()->Some_0;
    assert(drained(drains, buffered, times, k));
    assert(k * clock.step() >= 0) by (nonlinear_arith)
        requires
            k >= 0,
            clock.step() >= 0,
    ;
    crate::audio::law_chunk_times_do_not_drift((k * clock.step()) as nat, clock.rate());
}

proof fn lemma_drained(
    drains: Seq<Drain>,
    buffered: Seq<nat>,
    times: Seq<Option<Timestamp>>,
    k: int,
)
    requires
        drains.len() == buffered.len() + 1,
        times.len() == buffered.len(),
        drains[0].clock() matches Some(clock) && clock.emitted() == 0,
        forall|i: int| 0 <= i < buffered.len() ==> #[trigger] drained(drains, buffered, times, i),
        0 <= k <= buffered.len(),
    ensures
        drains[k].samples() == drains[0].samples(),
        ({
            let first = drains[0].clock()->Some_0;
            &&& drains[k].clock() matches Some(clock)
            &&& clock.emitted() == k * first.step()
            &&& clock.anchor() == first.anchor()
            &&& clock.rate() == first.rate()
            &&& clock.step() == first.step()
        }),
    decreases k,
{
    if k > 0 {
        lemma_drained(drains, buffered, times, k - 1);
        assert(drained(drains, buffered, times, k - 1));
        let step = drains[0].clock()->Some_0.step();
        assert(k * step == (k - 1) * step + step) by (nonlinear_arith);
    }
}

} // verus!
