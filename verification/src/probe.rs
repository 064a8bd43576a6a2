//! The capture probe: command line, stream health and verdict.
use crate::audio::AudioChunk;
use crate::text;
use crate::time::{self, Timestamp};
use crate::video::{PixelFormat, VideoCaps, VideoMode};
use std::time::Duration;
use vstd::prelude::*;
use vstd::string::*;

verus! {

/// How long the probe watches the streams if not told otherwise, in seconds.
pub const DEFAULT_PROBE_SECS: u64 = 5;

/// How many capture modes a summary lists.
pub const SUMMARY_MODES: usize = 4;

/// Parsed command-line options.
#[derive(Debug, Clone, Copy)]
pub struct Options {
    /// Use synthetic capture sources instead of real hardware.
    pub simulate: bool,
    /// Serve live view instead of probing.
    pub serve: bool,
    /// How long to probe.
    pub duration: Duration,
}

/// The options as plain values; the duration in seconds.
pub struct OptionsView {
    pub simulate: bool,
    pub serve: bool,
    pub secs: nat,
}

/// What the arguments ask for on top of `options`, or why they are refused.
/// They are taken in order: the first bad one decides, and a repeated duration
/// overrides the one before.
pub open spec fn parsed(args: Seq<Seq<char>>, options: OptionsView) -> Result<
    OptionsView,
    Seq<char>,
>
    decreases args.len(),
{
    if args.len() == 0 {
        Ok(options)
    } else if args[0] == "--simulate"@ {
        parsed(args.skip(1), OptionsView { simulate: true, ..options })
    } else if args[0] == "--serve"@ {
        parsed(args.skip(1), OptionsView { serve: true, ..options })
    } else if args[0] == "--duration"@ {
        if args.len() == 1 {
            Err("--duration requires a value"@)
        } else {
            match text::bounded_value(args[1], u64::MAX as nat) {
                Some(secs) => parsed(args.skip(2), OptionsView { secs, ..options }),
                None => Err("invalid --duration value: "@ + args[1]),
            }
        }
    } else if args[0] == "--help"@ || args[0] == "-h"@ {
        Err("usage: joy-agentd [--simulate] [--duration <secs>]"@)
    } else {
        Err("unknown argument: "@ + args[0])
    }
}

/// The options in the absence of arguments.
pub open spec fn default_options() -> OptionsView {
    OptionsView { simulate: false, serve: false, secs: DEFAULT_PROBE_SECS as nat }
}

/// The texts of some strings.
pub open spec fn texts(strings: Seq<String>) -> Seq<Seq<char>> {
    strings.map_values(|s: String| s@)
}

/// Whether two texts are equal.
fn same_text(a: &String, b: &str) -> (r: bool)
    ensures
        r == (a@ == b@),
{
    *a == b.to_owned()
}

/// `prefix` followed by `detail`.
fn message(prefix: &str, detail: &String) -> (m: String)
    ensures
        m@ == prefix@ + detail@,
{
    let mut m = prefix.to_owned();
    m.append(detail.as_str());
    m
}

/// Parses the command line, without the program name.
pub fn parse_args(args: &[String]) -> (r: Result<Options, String>)
    ensures
        match parsed(texts(args@), default_options()) {
            Ok(options) => {
                &&& r matches Ok(o)
                &&& o.simulate == options.simulate
                &&& o.serve == options.serve
                &&& time::duration_nanos(o.duration) == options.secs * 1_000_000_000
            },
            Err(refusal) => r matches Err(m) && m@ == refusal,
        },
{
    let mut simulate = false;
    let mut serve = false;
    let mut secs: u64 = DEFAULT_PROBE_SECS;
    let mut i: usize = 0;
    let ghost all = texts(args@);
    assert(all.skip(0) =~= all);
    while i < args.len()
        invariant
            i <= args@.len(),
            all == texts(args@),
            parsed(all.skip(i as int), (OptionsView { simulate, serve, secs: secs as nat }))
                == parsed(all, default_options()),
        decreases args@.len() - i,
    {
        let arg = &args[i];
        let ghost rest = all.skip(i as int);
        assert(rest[0] == arg@);
        assert(rest.skip(1) =~= all.skip(i + 1));
        if same_text(arg, "--simulate") {
            simulate = true;
            i = i + 1;
        } else if same_text(arg, "--serve") {
            serve = true;
            i = i + 1;
        } else if same_text(arg, "--duration") {
            if args.len() - i == 1 {
                return Err("--duration requires a value".to_owned());
            }
            let value = &args[i + 1];
            assert(rest[1] == value@);
            assert(rest.skip(2) =~= all.skip(i + 2));
            match text::parse_u64(value.as_str()) {
                Some(n) => {
                    secs = n;
                },
                None => {
                    return Err(message("invalid --duration value: ", value));
                },
            }
            i = i + 2;
        } else if same_text(arg, "--help") || same_text(arg, "-h") {
            return Err("usage: joy-agentd [--simulate] [--duration <secs>]".to_owned());
        } else {
            return Err(message("unknown argument: ", arg));
        }
    }
    assert(all.skip(i as int).len() == 0);
    Ok(Options { simulate, serve, duration: Duration::from_secs(secs) })
}

/// A capture mode as it appears in a summary.
pub open spec fn mode_text(mode: VideoMode) -> Seq<char> {
    text::decimal(mode.width as nat) + "x"@ + text::decimal(mode.height as nat) + "@"@
        + text::decimal(mode.fps as nat) + " "@ + mode.format.label()
}

/// The first `n` modes, separated by commas.
pub open spec fn modes_text(modes: Seq<VideoMode>, n: nat) -> Seq<char>
    decreases n,
{
    if n == 0 {
        Seq::empty()
    } else if n == 1 {
        mode_text(modes[0])
    } else {
        modes_text(modes, (n - 1) as nat) + ", "@ + mode_text(modes[n - 1])
    }
}

/// The summary of the modes a source offers: the first few, and how many there
/// are if that is not all of them.
pub open spec fn caps_text(modes: Seq<VideoMode>) -> Seq<char> {
    if modes.len() <= SUMMARY_MODES {
        modes_text(modes, modes.len())
    } else {
        modes_text(modes, SUMMARY_MODES as nat) + " … ("@ + text::decimal(modes.len())
            + " total)"@
    }
}

/// Appends a capture mode to a summary.
fn push_mode(summary: &mut String, mode: &VideoMode)
    ensures
        final(summary)@ == old(summary)@ + mode_text(*mode),
{
    text::push_decimal(summary, mode.width as u128);
    summary.append("x");
    text::push_decimal(summary, mode.height as u128);
    summary.append("@");
    text::push_decimal(summary, mode.fps as u128);
    summary.append(" ");
    summary.append(mode.format.name());
    assert(summary@ =~= old(summary)@ + mode_text(*mode));
}

/// Summarizes the modes a source offers.
pub fn summarize_video_caps(caps: &VideoCaps) -> (summary: String)
    ensures
        summary@ == caps_text(caps.modes@),
{
    let mut summary = String::new();
    let mut i: usize = 0;
    while i < caps.modes.len() && i < SUMMARY_MODES
        invariant
            i <= caps.modes@.len(),
            i <= SUMMARY_MODES,
            summary@ == modes_text(caps.modes@, i as nat),
        decreases SUMMARY_MODES - i,
    {
        if i > 0 {
            summary.append(", ");
        }
        push_mode(&mut summary, &caps.modes[i]);
        i = i + 1;
        assert(summary@ =~= modes_text(caps.modes@, i as nat));
    }
    if caps.modes.len() > SUMMARY_MODES {
        summary.append(" … (");
        text::push_decimal(&mut summary, caps.modes.len() as u128);
        summary.append(" total)");
    }
    summary
}

/// Accumulated health counters for one media stream.
#[derive(Debug)]
pub struct StreamStats {
    label: String,
    count: u64,
    frames: u64,
    lagged: u64,
    monotonic: bool,
    first: Option<Timestamp>,
    last: Option<Timestamp>,
    detail: String,
}

/// The health counters as plain values.
#[verifier::ext_equal]
pub struct StatsView {
    pub label: Seq<char>,
    /// Frames or chunks received.
    pub count: nat,
    /// Sample frames in the chunks received.
    pub frames: nat,
    /// Frames or chunks dropped because the receiver lagged.
    pub lagged: nat,
    /// Whether every timestamp was later than the one before.
    pub monotonic: bool,
    /// The first and the last timestamp, in nanoseconds.
    pub first: Option<nat>,
    pub last: Option<nat>,
    pub detail: Seq<char>,
}

/// A timestamp in nanoseconds, where there is one.
pub open spec fn stamp(ts: Option<Timestamp>) -> Option<nat> {
    match ts {
        Some(ts) => Some(ts@),
        None => None,
    }
}

impl StatsView {
    /// The counters of a stream that has delivered nothing.
    pub open spec fn fresh(label: Seq<char>) -> StatsView {
        StatsView {
            label,
            count: 0,
            frames: 0,
            lagged: 0,
            monotonic: true,
            first: None,
            last: None,
            detail: Seq::empty(),
        }
    }

    /// The counters after one more frame or chunk, captured at `ts`.
    pub open spec fn received(self, ts: nat) -> StatsView {
        StatsView {
            count: self.count + 1,
            monotonic: self.monotonic && (self.last matches Some(before) ==> ts > before),
            first: if self.first is Some {
                self.first
            } else {
                Some(ts)
            },
            last: Some(ts),
            ..self
        }
    }

    /// The counters after one more chunk of `frames` sample frames, captured at
    /// `ts`.
    pub open spec fn chunk_received(self, ts: nat, frames: nat) -> StatsView {
        StatsView { frames: self.frames + frames, ..self.received(ts) }
    }

    /// The counters after `times`, one after the other.
    pub open spec fn received_all(self, times: Seq<nat>) -> StatsView
        decreases times.len(),
    {
        if times.len() == 0 {
            self
        } else {
            self.received_all(times.drop_last()).received(times.last())
        }
    }

    /// The report line.
    pub open spec fn report(self) -> Seq<char> {
        self.label + ": "@ + text::decimal(self.count) + " received, "@ + text::decimal(
            self.lagged,
        ) + " dropped to lag, timestamps "@ + (if self.monotonic {
            "monotonic"@
        } else {
            "REGRESSED"@
        }) + self.detail
    }
}

impl View for StreamStats {
    type V = StatsView;

    closed spec fn view(&self) -> StatsView {
        StatsView {
            label: self.label@,
            count: self.count as nat,
            frames: self.frames as nat,
            lagged: self.lagged as nat,
            monotonic: self.monotonic,
            first: stamp(self.first),
            last: stamp(self.last),
            detail: self.detail@,
        }
    }
}

impl StreamStats {
    /// The counters of a stream that has delivered nothing.
    pub fn new(label: &str) -> (stats: StreamStats)
        ensures
            stats@ == StatsView::fresh(label@),
    {
        let stats = StreamStats {
            label: label.to_owned(),
            count: 0,
            frames: 0,
            lagged: 0,
            monotonic: true,
            first: None,
            last: None,
            detail: String::new(),
        };
        assert(stats@ =~= StatsView::fresh(label@));
        stats
    }

    /// How many frames or chunks were received.
    pub fn count(&self) -> (n: u64)
        ensures
            n == self@.count,
    {
        self.count
    }

    /// How many sample frames the chunks received had.
    pub fn frames(&self) -> (n: u64)
        ensures
            n == self@.frames,
    {
        self.frames
    }

    /// How many frames or chunks were dropped to lag.
    pub fn lagged(&self) -> (n: u64)
        ensures
            n == self@.lagged,
    {
        self.lagged
    }

    /// Whether every timestamp was later than the one before.
    pub fn is_monotonic(&self) -> (b: bool)
        ensures
            b == self@.monotonic,
    {
        self.monotonic
    }

    /// A frame or chunk captured at `ts` was received.
    pub fn on_received(&mut self, ts: Timestamp)
        requires
            old(self)@.count < u64::MAX,
        ensures
            final(self)@ == old(self)@.received(ts@),
    {
        self.count = self.count + 1;
        if let Some(before) = self.last {
            if !ts.is_after(before) {
                self.monotonic = false;
            }
        }
        self.last = Some(ts);
        if self.first.is_none() {
            self.first = Some(ts);
        }
        assert(self@ =~= old(self)@.received(ts@));
    }

    /// A chunk was received.
    pub fn on_chunk<S>(&mut self, chunk: &AudioChunk<S>)
        requires
            old(self)@.count < u64::MAX,
            old(self)@.frames + chunk.frame_count() <= u64::MAX,
        ensures
            final(self)@ == old(self)@.chunk_received(chunk.ts@, chunk.frame_count()),
    {
        let frames: u64 = chunk.frames() as u64;
        self.on_received(chunk.ts);
        self.frames = self.frames + frames;
        assert(self@ =~= old(self)@.chunk_received(chunk.ts@, chunk.frame_count()));
    }

    /// `n` frames or chunks were dropped to lag.
    pub fn on_lagged(&mut self, n: u64)
        requires
            old(self)@.lagged + n <= u64::MAX,
        ensures
            final(self)@ == (StatsView { lagged: old(self)@.lagged + n as nat, ..old(self)@ }),
    {
        self.lagged = self.lagged + n;
        assert(self@ =~= StatsView { lagged: old(self)@.lagged + n as nat, ..old(self)@ });
    }

    /// The capture time between the first and the last timestamp, and how many
    /// frame intervals it holds; `None` if nothing was received.
    pub fn span(&self) -> (r: Option<(Duration, u64)>)
        ensures
            match (self@.first, self@.last) {
                (Some(first), Some(last)) => {
                    &&& r matches Some((span, intervals))
                    &&& time::duration_nanos(span) == time::since_nanos(last, first)
                    &&& intervals == (if self@.count == 0 {
                        0
                    } else {
                        self@.count - 1
                    })
                },
                _ => r is None,
            },
    {
        match (self.first, self.last) {
            (Some(first), Some(last)) => {
                let intervals: u64 = if self.count == 0 {
                    0
                } else {
                    self.count - 1
                };
                Some((last.saturating_since(first), intervals))
            },
            _ => None,
        }
    }

    /// Adds what is known of the stream to the report.
    pub fn set_detail(&mut self, detail: String)
        ensures
            final(self)@ == (StatsView { detail: detail@, ..old(self)@ }),
    {
        self.detail = detail;
        assert(self@ =~= StatsView { detail: detail@, ..old(self)@ });
    }

    /// The report line.
    pub fn report(&self) -> (line: String)
        ensures
            line@ == self@.report(),
    {
        let mut line = self.label.as_str().to_owned();
        line.append(": ");
        text::push_decimal(&mut line, self.count as u128);
        line.append(" received, ");
        text::push_decimal(&mut line, self.lagged as u128);
        line.append(" dropped to lag, timestamps ");
        if self.monotonic {
            line.append("monotonic");
        } else {
            line.append("REGRESSED");
        }
        line.append(self.detail.as_str());
        line
    }
}

/// What is known of a video stream, given the measured frame rate as text.
pub fn video_detail(width: u32, height: u32, format: PixelFormat, fps: &str) -> (detail: String)
    ensures
        detail@ == "; "@ + text::decimal(width as nat) + "x"@ + text::decimal(height as nat) + " "@
            + format.label() + ", "@ + fps@ + " fps measured"@,
{
    let mut detail = "; ".to_owned();
    text::push_decimal(&mut detail, width as u128);
    detail.append("x");
    text::push_decimal(&mut detail, height as u128);
    detail.append(" ");
    detail.append(format.name());
    detail.append(", ");
    detail.append(fps);
    detail.append(" fps measured");
    detail
}

/// What is known of an audio stream, given the loudest chunk's level as text.
pub fn audio_detail(sample_rate: u32, channels: u16, frames_total: u64, peak_rms: &str) -> (detail:
    String)
    ensures
        detail@ == "; "@ + text::decimal(sample_rate as nat) + " Hz × "@ + text::decimal(
            channels as nat,
        ) + " ch, "@ + text::decimal(frames_total as nat) + " frames total, peak RMS "@
            + peak_rms@,
{
    let mut detail = "; ".to_owned();
    text::push_decimal(&mut detail, sample_rate as u128);
    detail.append(" Hz × ");
    text::push_decimal(&mut detail, channels as u128);
    detail.append(" ch, ");
    text::push_decimal(&mut detail, frames_total as u128);
    detail.append(" frames total, peak RMS ");
    detail.append(peak_rms);
    detail
}

/// Why a probe failed, or `None` if both streams are healthy.
pub open spec fn probe_failure(video: StatsView, audio: StatsView) -> Option<Seq<char>> {
    if video.count == 0 {
        Some("no video frames received"@)
    } else if audio.count == 0 {
        Some("no audio chunks received"@)
    } else if !video.monotonic || !audio.monotonic {
        Some("timestamps regressed — time discipline violated"@)
    } else {
        None
    }
}

/// The verdict on a probe: both streams delivered something and neither's
/// timestamps went backwards or stood still.
pub fn verdict(video: &StreamStats, audio: &StreamStats) -> (r: Result<(), String>)
    ensures
        match probe_failure(video@, audio@) {
            Some(reason) => r matches Err(m) && m@ == reason,
            None => r is Ok,
        },
{
    if video.count == 0 {
        return Err("no video frames received".to_owned());
    }
    if audio.count == 0 {
        return Err("no audio chunks received".to_owned());
    }
    if !video.monotonic || !audio.monotonic {
        return Err("timestamps regressed — time discipline violated".to_owned());
    }
    Ok(())
}

/// A stream counts as monotonic exactly when its timestamps increase strictly,
/// every frame or chunk is counted, and the first and the last timestamp are kept.
pub proof fn law_monotonic_means_strictly_increasing(label: Seq<char>, times: Seq<nat>)
    ensures
        StatsView::fresh(label).received_all(times).monotonic <==> forall|i: int, j: int|
            0 <= i < j < times.len() ==> times[i] < times[j],
        StatsView::fresh(label).received_all(times).count == times.len(),
        times.len() > 0 ==> StatsView::fresh(label).received_all(times).last == Some(
            times.last(),
        ),
        times.len() == 0 ==> StatsView::fresh(label).received_all(times).last is None,
        times.len() > 0 ==> StatsView::fresh(label).received_all(times).first == Some(times[0]),
        times.len() == 0 ==> StatsView::fresh(label).received_all(times).first is None,
        StatsView::fresh(label).received_all(times).label == label,
        StatsView::fresh(label).received_all(times).frames == 0,
        StatsView::fresh(label).received_all(times).lagged == 0,
        StatsView::fresh(label).received_all(times).detail.len() == 0,
    decreases times.len(),
{
    if times.len() > 0 {
        let shorter = times.drop_last();
        law_monotonic_means_strictly_increasing(label, shorter);
        let before = StatsView::fresh(label).received_all(shorter);
        let after = StatsView::fresh(label).received_all(times);
        let n = times.len() as int;
        if after.monotonic {
            assert forall|i: int, j: int| 0 <= i < j < times.len() implies times[i] < times[j] by {
                assert(forall|k: int| 0 <= k < n - 1 ==> shorter[k] == times[k]);
                if j == n - 1 {
                    assert(shorter.last() == times[n - 2]);
                    if i < n - 2 {
                        assert(shorter[i] < shorter[n - 2]);
                    }
                } else {
                    assert(shorter[i] < shorter[j]);
                }
            }
        }
        if forall|i: int, j: int| 0 <= i < j < times.len() ==> times[i] < times[j] {
            assert forall|i: int, j: int| 0 <= i < j < shorter.len() implies shorter[i]
                < shorter[j] by {
                assert(times[i] < times[j]);
            }
            if n >= 2 {
                assert(times[n - 2] < times[n - 1]);
            }
        }
    }
}

/// A chunk is counted as one and adds its frames; nothing else tells it from a
/// frame captured at the same time.
pub proof fn law_chunks_add_their_frames(stats: StatsView, ts: nat, frames: nat)
    ensures
        stats.chunk_received(ts, frames).frames == stats.frames + frames,
        stats.received(ts).frames == stats.frames,
        stats.chunk_received(ts, frames) == (StatsView {
            frames: stats.frames + frames,
            ..stats.received(ts)
        }),
        stats.received(ts).count == stats.count + 1,
        stats.received(ts).lagged == stats.lagged,
        stats.received(ts).label == stats.label,
        stats.received(ts).detail == stats.detail,
        stats.received(ts).last == Some(ts),
        stats.first is Some ==> stats.received(ts).first == stats.first,
        stats.first is None ==> stats.received(ts).first == Some(ts),
        stats.received(ts).monotonic <==> stats.monotonic && (stats.last matches Some(before)
            ==> before < ts),
{
}

/// A report gives the label, what was received and what was dropped, whether the
/// timestamps were in order, and the detail.
pub proof fn law_reports_hold_all_counters(stats: StatsView)
    ensures
        ({
            let counted = stats.label + ": "@ + text::decimal(stats.count) + " received, "@
                + text::decimal(stats.lagged) + " dropped to lag, timestamps "@;
            &&& stats.monotonic ==> stats.report() == counted + "monotonic"@ + stats.detail
            &&& !stats.monotonic ==> stats.report() == counted + "REGRESSED"@ + stats.detail
        }),
{
}

/// A probe succeeds exactly when both streams delivered something, each with
/// timestamps in order. A silent stream is reported before disorder, and silent
/// video before silent audio.
pub proof fn law_what_fails_a_probe(video: StatsView, audio: StatsView)
    ensures
        probe_failure(video, audio) is None <==> video.count > 0 && audio.count > 0
            && video.monotonic && audio.monotonic,
        video.count == 0 ==> probe_failure(video, audio) == Some("no video frames received"@),
        video.count > 0 && audio.count == 0 ==> probe_failure(video, audio) == Some(
            "no audio chunks received"@,
        ),
        video.count > 0 && audio.count > 0 && !(video.monotonic && audio.monotonic)
            ==> probe_failure(video, audio) == Some(
            "timestamps regressed — time discipline violated"@,
        ),
{
}

/// The flags of the command line are different texts.
proof fn lemma_flags_differ()
    ensures
        "--simulate"@ != "--serve"@,
        "--simulate"@ != "--duration"@,
        "--serve"@ != "--duration"@,
        "--help"@ != "--simulate"@,
        "--help"@ != "--serve"@,
        "--help"@ != "--duration"@,
        "-h"@ != "--simulate"@,
        "-h"@ != "--serve"@,
        "-h"@ != "--duration"@,
{
    reveal_strlit("--simulate");
    reveal_strlit("--serve");
    reveal_strlit("--duration");
    reveal_strlit("--help");
    reveal_strlit("-h");
    assert("--simulate"@[2] == 's');
    assert("--duration"@[2] == 'd');
    assert("--help"@[2] == 'h');
    assert("--serve"@[2] == 's');
    assert("--serve"@.len() == 7);
    assert("--simulate"@.len() == 10);
    assert("--duration"@.len() == 10);
    assert("-h"@.len() == 2);
}

/// Arguments are taken in order: once a first part is accepted, the rest goes on
/// from what it asked for.
pub proof fn law_arguments_are_taken_in_order(
    first: Seq<Seq<char>>,
    second: Seq<Seq<char>>,
    options: OptionsView,
)
    requires
        parsed(first, options) is Ok,
    ensures
        parsed(first + second, options) == parsed(second, parsed(first, options)->Ok_0),
    decreases first.len(),
{
    let all = first + second;
    if first.len() == 0 {
        assert(all =~= second);
    } else {
        lemma_flags_differ();
        assert(all[0] == first[0]);
        assert(all.skip(1) =~= first.skip(1) + second);
        if first[0] == "--simulate"@ {
            law_arguments_are_taken_in_order(
                first.skip(1),
                second,
                OptionsView { simulate: true, ..options },
            );
        } else if first[0] == "--serve"@ {
            law_arguments_are_taken_in_order(
                first.skip(1),
                second,
                OptionsView { serve: true, ..options },
            );
        } else if first[0] == "--duration"@ && first.len() > 1 {
            assert(all[1] == first[1]);
            assert(all.skip(2) =~= first.skip(2) + second);
            if let Some(secs) = text::bounded_value(first[1], u64::MAX as nat) {
                law_arguments_are_taken_in_order(
                    first.skip(2),
                    second,
                    OptionsView { secs, ..options },
                );
            }
        }
    }
}

/// What each argument does by itself: a flag is set and nothing else changes, and
/// a duration is the number that follows it, up to what fits 64 bits.
pub proof fn law_accepted_arguments(options: OptionsView, value: Seq<char>, secs: nat)
    ensures
        parsed(seq![], options) == Ok::<OptionsView, Seq<char>>(options),
        parsed(seq!["--simulate"@], options) == Ok::<OptionsView, Seq<char>>(
            OptionsView { simulate: true, serve: options.serve, secs: options.secs },
        ),
        parsed(seq!["--serve"@], options) == Ok::<OptionsView, Seq<char>>(
            OptionsView { simulate: options.simulate, serve: true, secs: options.secs },
        ),
        text::unsigned_value(value) == Some(secs) && secs < 0x1_0000_0000_0000_0000 ==> parsed(
            seq!["--duration"@, value],
            options,
        ) == Ok::<OptionsView, Seq<char>>(
            OptionsView { simulate: options.simulate, serve: options.serve, secs },
        ),
{
    lemma_flags_differ();
    assert(seq!["--simulate"@].skip(1) =~= seq![]);
    assert(seq!["--serve"@].skip(1) =~= seq![]);
    assert(seq!["--duration"@, value].skip(2) =~= seq![]);
    reveal_with_fuel(parsed, 2);
}

/// The first bad argument decides, whatever follows it: a duration without a
/// number, a request for help, or anything that is not known.
pub proof fn law_refused_arguments(
    options: OptionsView,
    bad: Seq<char>,
    rest: Seq<Seq<char>>,
)
    ensures
        parsed(seq!["--duration"@], options) == Err::<OptionsView, Seq<char>>(
            "--duration requires a value"@,
        ),
        (text::unsigned_value(bad) matches Some(secs) ==> secs > u64::MAX) ==> parsed(
            seq!["--duration"@, bad] + rest,
            options,
        ) == Err::<OptionsView, Seq<char>>("invalid --duration value: "@ + bad),
        bad == "--help"@ || bad == "-h"@ ==> parsed(seq![bad] + rest, options) == Err::<
            OptionsView,
            Seq<char>,
        >("usage: joy-agentd [--simulate] [--duration <secs>]"@),
        bad != "--simulate"@ && bad != "--serve"@ && bad != "--duration"@ && bad != "--help"@ && bad
            != "-h"@ ==> parsed(seq![bad] + rest, options) == Err::<OptionsView, Seq<char>>(
            "unknown argument: "@ + bad,
        ),
{
    lemma_flags_differ();
    assert((seq![bad] + rest)[0] == bad);
    assert((seq!["--duration"@, bad] + rest)[0] == "--duration"@);
    assert((seq!["--duration"@, bad] + rest)[1] == bad);
}

/// Without arguments the probe runs on hardware for five seconds, and the
/// arguments are read as they were given.
pub proof fn law_default_options(strings: Seq<String>)
    ensures
        default_options() == (OptionsView { simulate: false, serve: false, secs: 5 }),
        texts(strings).len() == strings.len(),
        forall|i: int| 0 <= i < strings.len() ==> #[trigger] texts(strings)[i] == strings[i]@,
{
}

/// The first modes of a list do not depend on what follows them.
proof fn lemma_modes_text_prefix(modes: Seq<VideoMode>, longer: Seq<VideoMode>, n: nat)
    requires
        n <= modes.len() <= longer.len(),
        forall|i: int| 0 <= i < n ==> #[trigger] modes[i] == longer[i],
    ensures
        modes_text(modes, n) == modes_text(longer, n),
    decreases n,
{
    if n > 1 {
        lemma_modes_text_prefix(modes, longer, (n - 1) as nat);
    }
    if n > 0 {
        assert(modes[n - 1] == longer[n - 1]);
    }
}

/// A summary lists up to four modes in order, separated by commas; if there are
/// more, the first four and how many there are. A mode is its size, its frame rate
/// and its format.
pub proof fn law_summaries_list_four_modes(modes: Seq<VideoMode>, mode: VideoMode)
    ensures
        ({
            let shown = text::decimal(mode.width as nat) + "x"@ + text::decimal(mode.height as nat)
                + "@"@ + text::decimal(mode.fps as nat) + " "@ + mode.format.label();
            &&& caps_text(seq![]) == Seq::<char>::empty()
            &&& caps_text(seq![mode]) == shown
            &&& 0 < modes.len() < 4 ==> caps_text(modes.push(mode)) == caps_text(modes) + ", "@
                + shown
            &&& modes.len() > 4 ==> caps_text(modes) == caps_text(modes.take(4)) + " … ("@
                + text::decimal(modes.len()) + " total)"@
        }),
{
    let longer = modes.push(mode);
    lemma_modes_text_prefix(modes, longer, modes.len());
    if modes.len() > 4 {
        lemma_modes_text_prefix(modes.take(4), modes, 4);
    }
    assert(modes_text(seq![], 0) == Seq::<char>::empty());
    assert(modes_text(seq![mode], 1) == mode_text(mode));
}

} // verus!
