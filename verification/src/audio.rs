//! The audio half of the capture layer: chunk, configuration and capability
//! types.
use crate::time::{self, Timestamp};
use std::sync::Arc;
use std::time::Duration;
use vstd::prelude::*;

verus! {

/// Capacity of the bounded broadcast channel an audio source publishes on.
///
/// Larger than the video channel because chunks are small and short gaps are
/// better than dropped speech onsets.
pub const AUDIO_CHANNEL_CAPACITY: usize = 32;

/// A fixed-duration run of interleaved PCM samples.
///
/// Samples are interleaved by channel: all channels of frame 0, then frame 1,
/// and so on. The sample type is a parameter; nothing here depends on it.
#[derive(Debug, Clone)]
pub struct AudioChunk<S> {
    /// Monotonic capture time of the first sample in the chunk.
    pub ts: Timestamp,
    /// Sample rate in Hz that these samples were captured at.
    pub sample_rate: u32,
    /// Number of interleaved channels.
    pub channels: u16,
    /// Interleaved PCM payload; its length is frames times channels.
    pub samples: Arc<[S]>,
}

impl<S> AudioChunk<S> {
    /// Number of sample frames: one frame is one sample per channel, and a
    /// chunk without channels counts as mono.
    pub open spec fn frame_count(&self) -> nat {
        self.samples@.len() / (if self.channels == 0 {
            1
        } else {
            self.channels as nat
        })
    }

    /// Number of sample frames in the chunk (one frame = one sample per
    /// channel).
    pub fn frames(&self) -> (n: usize)
        ensures
            n as nat == self.frame_count(),
    {
        let channels: usize = if self.channels == 0 {
            1
        } else {
            self.channels as usize
        };
        self.samples.len() / channels
    }
}

/// Requested audio capture configuration.
///
/// Hardware sources may open a different rate or channel count; the actual
/// values are reported on every [`AudioChunk`].
#[derive(Debug, Clone, PartialEq, Eq)]
pub struct AudioConfig {
    /// Device name. `None` selects the platform default input.
    pub device: Option<String>,
    /// Requested sample rate in Hz.
    pub sample_rate: u32,
    /// Requested channel count.
    pub channels: u16,
    /// Frames per published [`AudioChunk`].
    pub chunk_frames: usize,
}

impl Default for AudioConfig {
    /// 48 kHz mono in 960-frame (20 ms) chunks from the default input.
    fn default() -> (cfg: AudioConfig)
        ensures
            cfg.device is None,
            cfg.sample_rate == 48_000,
            cfg.channels == 1,
            cfg.chunk_frames == 960,
    {
        AudioConfig { device: None, sample_rate: 48_000, channels: 1, chunk_frames: 960 }
    }
}

/// One capture mode range an audio device supports.
#[derive(Debug, Clone, Copy, PartialEq, Eq, Structural)]
pub struct AudioMode {
    pub channels: u16,
    pub min_sample_rate: u32,
    pub max_sample_rate: u32,
}

/// What an audio source can do: the mode ranges it can capture in.
#[derive(Debug, Clone)]
pub struct AudioCaps {
    pub modes: Vec<AudioMode>,
}

impl Default for AudioCaps {
    /// No modes.
    fn default() -> (caps: AudioCaps)
        ensures
            caps.modes@ == Seq::<AudioMode>::empty(),
    {
        AudioCaps { modes: Vec::new() }
    }
}

/// `Arc::from` of a vector: the shared slice holds the vector's items.
#[verifier::external_body]
pub(crate) fn share<S>(samples: Vec<S>) -> (shared: Arc<[S]>)
    ensures
        shared@ == samples@,
{
    Arc::from(samples)
}

/// Spreads one value per frame over all channels of the frame.
pub fn interleave<T: Copy>(values: &[T], channels: usize) -> (samples: Vec<T>)
    requires
        values@.len() * channels <= usize::MAX,
    ensures
        samples@.len() == values@.len() * channels,
        forall|f: int, c: int|
            0 <= f < values@.len() && 0 <= c < channels ==> #[trigger] samples@[f * channels + c]
                == values@[f],
{
    let mut samples: Vec<T> = Vec::with_capacity(values.len() * channels);
    let mut frame: usize = 0;
    while frame < values.len()
        invariant
            frame <= values@.len(),
            samples@.len() == frame * channels,
            forall|f: int, c: int|
                0 <= f < frame && 0 <= c < channels ==> #[trigger] samples@[f * channels + c]
                    == values@[f],
        decreases values@.len() - frame,
    {
        let mut channel: usize = 0;
        while channel < channels
            invariant
                channel <= channels,
                frame < values@.len(),
                samples@.len() == frame * channels + channel,
                forall|f: int, c: int|
                    0 <= f <= frame && 0 <= c < channels && (f == frame ==> c < channel)
                        ==> #[trigger] samples@[f * channels + c] == values@[f],
            decreases channels - channel,
        {
            let ghost before = samples@;
            samples.push(values[frame]);
            proof {
                assert forall|f: int, c: int|
                    0 <= f <= frame && 0 <= c < channels && (f == frame ==> c < channel + 1) implies
                    #[trigger] samples@[f * channels + c] == values@[f] by {
                    if f == frame && c == channel {
                    } else {
                        lemma_earlier_sample(f, c, frame as int, channel as int, channels as int);
                        assert(samples@[f * channels + c] == before[f * channels + c]);
                    }
                }
            }
            channel = channel + 1;
        }
        proof {
            assert((frame + 1) * channels == frame * channels + channels) by (nonlinear_arith);
        }
        frame = frame + 1;
    }
    samples
}

/// Samples of earlier frames, and of earlier channels of the same frame, come
/// first.
proof fn lemma_earlier_sample(f: int, c: int, frame: int, channel: int, channels: int)
    requires
        0 <= c < channels,
        0 <= f <= frame,
        0 <= channel < channels,
        f == frame ==> c < channel,
    ensures
        0 <= f * channels + c < frame * channels + channel,
{
    assert(0 <= f * channels + c < frame * channels + channel) by (nonlinear_arith)
        requires
            0 <= c < channels,
            0 <= f <= frame,
            0 <= channel < channels,
            f == frame ==> c < channel,
    ;
}

/// The nanoseconds that `frames` sample frames last at `rate` Hz, rounded down;
/// a rate of zero counts as one.
pub open spec fn frames_nanos(frames: nat, rate: nat) -> nat {
    frames * 1_000_000_000 / (if rate == 0 {
        1
    } else {
        rate
    })
}

/// Stamps the chunks of one stream.
///
/// Timestamps are derived as the anchor plus the duration of all frames emitted
/// so far, rather than read from the clock per chunk, so that they do not drift
/// however chunks are scheduled.
#[derive(Debug, Clone, Copy)]
pub struct ChunkClock {
    anchor: Timestamp,
    sample_rate: u32,
    chunk_frames: u64,
    frames: u64,
}

impl ChunkClock {
    /// When the stream's first sample was captured, in nanoseconds.
    pub closed spec fn anchor(&self) -> nat {
        self.anchor@
    }

    /// The stream's sample rate.
    pub closed spec fn rate(&self) -> nat {
        self.sample_rate as nat
    }

    /// Frames per chunk.
    pub closed spec fn step(&self) -> nat {
        self.chunk_frames as nat
    }

    /// Frames stamped so far.
    pub closed spec fn emitted(&self) -> nat {
        self.frames as nat
    }

    /// Whether the next timestamp and the frame count after it can be
    /// represented.
    pub open spec fn can_advance(&self) -> bool {
        &&& self.emitted() + self.step() <= u64::MAX
        &&& frames_nanos(self.emitted(), self.rate()) <= u64::MAX
        &&& self.anchor() + frames_nanos(self.emitted(), self.rate()) <= time::max_nanos()
    }

    /// Whether this clock stamps a chunk with `ts` and goes on as `after`: the
    /// chunk begins where all frames so far end, and its own frames follow.
    pub open spec fn stamps(&self, ts: Timestamp, after: ChunkClock) -> bool {
        &&& ts@ == self.anchor() + frames_nanos(self.emitted(), self.rate())
        &&& after.emitted() == self.emitted() + self.step()
        &&& after.anchor() == self.anchor()
        &&& after.rate() == self.rate()
        &&& after.step() == self.step()
    }

    /// Starts stamping at `anchor`.
    pub fn start(anchor: Timestamp, sample_rate: u32, chunk_frames: u64) -> (clock: ChunkClock)
        ensures
            clock.anchor() == anchor@,
            clock.rate() == sample_rate,
            clock.step() == chunk_frames,
            clock.emitted() == 0,
    {
        ChunkClock { anchor, sample_rate, chunk_frames, frames: 0 }
    }

    /// The offset of the next chunk from the anchor, in nanoseconds.
    fn next_offset(&self) -> (n: u128)
        ensures
            n == frames_nanos(self.emitted(), self.rate()),
    {
        let rate: u128 = if self.sample_rate == 0 {
            1
        } else {
            self.sample_rate as u128
        };
        self.frames as u128 * 1_000_000_000 / rate
    }

    /// Whether another chunk can be stamped.
    pub fn has_next(&self) -> (b: bool)
        ensures
            b == self.can_advance(),
    {
        let offset: u128 = self.next_offset();
        let anchor: u128 = self.anchor.as_nanos();
        self.frames <= u64::MAX - self.chunk_frames && offset <= u64::MAX as u128 && anchor + offset
            <= u64::MAX as u128 * 1_000_000_000 + 999_999_999
    }

    /// Counts the frames stamped so far.
    pub fn frames(&self) -> (n: u64)
        ensures
            n == self.emitted(),
    {
        self.frames
    }

    /// Stamps the next chunk.
    pub fn next_timestamp(&mut self) -> (ts: Timestamp)
        requires
            old(self).can_advance(),
        ensures
            old(self).stamps(ts, *final(self)),
    {
        let offset: u64 = self.next_offset() as u64;
        let ts = self.anchor + Duration::from_nanos(offset);
        self.frames = self.frames + self.chunk_frames;
        ts
    }
}

/// Derived chunk times do not drift: the offset of any number of frames is
/// within one nanosecond of their exact duration.
pub proof fn law_chunk_times_do_not_drift(frames: nat, rate: nat)
    requires
        rate > 0,
    ensures
        frames_nanos(frames, rate) * rate <= frames * 1_000_000_000,
        frames * 1_000_000_000 < (frames_nanos(frames, rate) + 1) * rate,
{
    let total = frames * 1_000_000_000;
    let q = frames_nanos(frames, rate);
    assert(q * rate <= total < (q + 1) * rate) by (nonlinear_arith)
        requires
            rate > 0,
            q == total / rate,
    ;
}

/// Derived chunk times increase strictly, as long as a chunk lasts at least a
/// nanosecond.
pub proof fn law_chunk_times_increase(frames: nat, chunk_frames: nat, rate: nat)
    requires
        0 < rate <= chunk_frames * 1_000_000_000,
    ensures
        frames_nanos(frames, rate) < frames_nanos(frames + chunk_frames, rate),
{
    let a = frames * 1_000_000_000;
    let b = (frames + chunk_frames) * 1_000_000_000;
    assert(b >= a + rate);
    assert(a / rate < b / rate) by (nonlinear_arith)
        requires
            0 < rate,
            0 <= a,
            b >= a + rate,
    ;
}

/// Where a chunk lasts a whole number of nanoseconds, derived chunk times
/// advance by exactly that duration.
pub proof fn law_chunk_times_advance_exactly(frames: nat, chunk_frames: nat, rate: nat)
    requires
        rate > 0,
        (chunk_frames * 1_000_000_000) % rate == 0,
    ensures
        frames_nanos(frames + chunk_frames, rate) == frames_nanos(frames, rate) + frames_nanos(
            chunk_frames,
            rate,
        ),
{
    let a = (frames * 1_000_000_000) as int;
    let c = (chunk_frames * 1_000_000_000) as int;
    let d = rate as int;
    let q = c / d;
    assert(c == q * d) by {
        vstd::arithmetic::div_mod::lemma_fundamental_div_mod(c, d);
        assert(d * q == q * d) by (nonlinear_arith);
    }
    vstd::arithmetic::div_mod::lemma_hoist_over_denominator(a, q, rate);
    assert(a + c == (frames + chunk_frames) * 1_000_000_000);
}

/// After `k` chunks a clock has stamped their frames and is otherwise as it was.
pub(crate) proof fn lemma_frames_stamped(clocks: Seq<ChunkClock>, times: Seq<Timestamp>, k: int)
    requires
        clocks.len() == times.len() + 1,
        clocks[0].emitted() == 0,
        forall|i: int|
            0 <= i < times.len() ==> (#[trigger] clocks[i]).stamps(times[i], clocks[i + 1]),
        0 <= k <= times.len(),
    ensures
        clocks[k].emitted() == k * clocks[0].step(),
        clocks[k].anchor() == clocks[0].anchor(),
        clocks[k].rate() == clocks[0].rate(),
        clocks[k].step() == clocks[0].step(),
    decreases k,
{
    if k > 0 {
        lemma_frames_stamped(clocks, times, k - 1);
        assert(clocks[k - 1].stamps(times[k - 1], clocks[k]));
        let step = clocks[0].step();
        assert(k * step == (k - 1) * step + step) by (nonlinear_arith);
    }
}

/// In a stream stamped from its start, the `k`-th chunk is stamped with the
/// anchor plus the duration of `k` chunks, rounded down once; and as long as a
/// chunk lasts at least a nanosecond, every chunk is later than those before it.
pub proof fn law_stream_times(clocks: Seq<ChunkClock>, times: Seq<Timestamp>)
    requires
        clocks.len() == times.len() + 1,
        clocks[0].emitted() == 0,
        forall|i: int|
            0 <= i < times.len() ==> (#[trigger] clocks[i]).stamps(times[i], clocks[i + 1]),
    ensures
        forall|k: int|
            0 <= k < times.len() ==> (#[trigger] times[k])@ == clocks[0].anchor() + frames_nanos(
                (k * clocks[0].step()) as nat,
                clocks[0].rate(),
            ),
        0 < clocks[0].rate() <= clocks[0].step() * 1_000_000_000 ==> forall|j: int, k: int|
            0 <= j < k < times.len() ==> (#[trigger] times[j])@ < (#[trigger] times[k])@,
{
    let step = clocks[0].step();
    let rate = clocks[0].rate();
    assert forall|k: int| 0 <= k < times.len() implies (#[trigger] times[k])@ == clocks[0].anchor()
        + frames_nanos((k * step) as nat, rate) by {
        lemma_frames_stamped(clocks, times, k);
        assert(clocks[k].stamps(times[k], clocks[k + 1]));
    }
    if 0 < rate <= step * 1_000_000_000 {
        assert forall|j: int, k: int| 0 <= j < k < times.len() implies (#[trigger] times[j])@ < (
        #[trigger] times[k])@ by {
            let between = ((k - j) * step) as nat;
            assert(0 <= j * step && between >= step && (k * step) == (j * step) + between)
                by (nonlinear_arith)
                requires
                    0 <= j < k,
                    between == (k - j) * step,
                    step >= 0,
            ;
            law_chunk_times_increase((j * step) as nat, between, rate);
        }
    }
}

/// Interleaving one value per frame gives a chunk of that many frames.
pub proof fn law_interleaved_frames(frames: nat, channels: nat)
    requires
        channels > 0,
    ensures
        frames * channels / channels == frames,
{
    vstd::arithmetic::div_mod::lemma_div_by_multiple(frames as int, channels as int);
}

/// A chunk has as many frames as its samples fill completely, one sample for each
/// channel.
pub proof fn law_frames_are_complete<S>(chunk: AudioChunk<S>)
    ensures
        chunk.channels > 0 ==> chunk.frame_count() * chunk.channels <= chunk.samples@.len() < (
        chunk.frame_count() + 1) * chunk.channels,
        chunk.channels == 0 ==> chunk.frame_count() == chunk.samples@.len(),
{
    if chunk.channels > 0 {
        let n = chunk.samples@.len() as int;
        let d = chunk.channels as int;
        let q = n / d;
        assert(q * d <= n < (q + 1) * d) by (nonlinear_arith)
            requires
                d > 0,
                q == n / d,
        ;
    }
}

/// Without a sample rate a frame lasts a second.
pub proof fn law_frames_without_a_rate(frames: nat)
    ensures
        frames_nanos(frames, 0) == frames * 1_000_000_000,
{
}

/// A clock stamps another chunk exactly when the frames counted after it fit 64
/// bits, the time since the anchor fits 64 bits of nanoseconds, and the timestamp
/// is not beyond the longest duration.
pub proof fn law_when_a_clock_can_go_on(clock: ChunkClock, offset: nat)
    requires
        clock.rate() > 0,
        offset * clock.rate() <= clock.emitted() * 1_000_000_000 < (offset + 1) * clock.rate(),
    ensures
        clock.can_advance() <==> {
            &&& clock.emitted() + clock.step() < 0x1_0000_0000_0000_0000
            &&& offset < 0x1_0000_0000_0000_0000
            &&& clock.anchor() + offset < 0x1_0000_0000_0000_0000 * 1_000_000_000
        },
{
    let total = (clock.emitted() * 1_000_000_000) as int;
    let rate = clock.rate() as int;
    assert(0 <= total - offset * rate < rate) by (nonlinear_arith)
        requires
            offset * rate <= total < (offset + 1) * rate,
    ;
    vstd::arithmetic::div_mod::lemma_fundamental_div_mod_converse(
        total,
        rate,
        offset as int,
        total - offset * rate,
    );
}

} // verus!
