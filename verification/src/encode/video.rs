//! The shared H.264 video encoder.
use crate::convert::{self, I420Buffer};
use crate::error::MediaError;
use crate::time::{self, Timestamp};
use crate::video::{self, VideoFrame};
use openh264::encoder::{Encoder, FrameType};
use openh264::formats::YUVSlices;
use std::time::Duration;
use vstd::prelude::*;
use vstd::string::*;

verus! {

/// The H.264 encoder.
#[verifier::external_type_specification]
#[verifier::external_body]
pub struct ExEncoder(Encoder);

/// The kind of an encoded frame.
#[derive(Debug, Clone, Copy, PartialEq, Eq, Structural)]
pub enum FrameKind {
    Invalid,
    Idr,
    Intra,
    Predicted,
    Skipped,
    Mixed,
}

/// What the encoder made of one picture.
#[derive(Debug)]
pub struct EncodedFrame {
    pub kind: FrameKind,
    /// The bitstream in Annex B format.
    pub data: Vec<u8>,
}

/// Whether a picture is beyond what the encoder takes: 3840 by 2160 in either
/// orientation. Dimensions that the encoder cannot even count are left out.
pub open spec fn too_large(width: nat, height: nat) -> bool {
    &&& width <= i32::MAX
    &&& height <= i32::MAX
    &&& width > 3840 || height > 3840 || (width > 2160 && height > 2160)
}

/// Whether a picture is below what the encoder takes: 16 by 16.
pub open spec fn too_small(width: nat, height: nat) -> bool {
    width < 16 || height < 16
}

/// What came of a picture as plain values.
#[verifier::ext_equal]
pub enum Outcome {
    /// The encoder made this of it.
    Encoded { kind: FrameKind, data: Seq<u8> },
    /// The encoder failed with this complaint.
    Failed(Seq<char>),
}

/// The plain value of an encoding result.
pub open spec fn outcome_of(output: Result<EncodedFrame, String>) -> Outcome {
    match output {
        Ok(frame) => Outcome::Encoded { kind: frame.kind, data: frame.data@ },
        Err(complaint) => Outcome::Failed(complaint@),
    }
}

/// A call made to the H.264 encoder.
pub enum EncoderCall {
    /// Make the next encoded picture a keyframe.
    ForceIntra,
    /// Encode a picture, and what came of it.
    Encode { picture: convert::Planes, outcome: Outcome },
}

/// The H.264 encoder, with the calls made to it so far.
struct Recorded {
    encoder: Encoder,
    calls: Ghost<Seq<EncoderCall>>,
}

/// `openh264::encoder::Encoder::force_intra_frame`, which asks for a keyframe
/// with the next encoded picture. The call is made; the encoder's state is
/// opaque, so nothing else is claimed.
#[verifier::external_body]
fn force_intra(recorded: &mut Recorded)
    ensures
        final(recorded).calls@ == old(recorded).calls@.push(EncoderCall::ForceIntra),
{
    recorded.encoder.force_intra_frame();
}

/// `openh264::encoder::Encoder::encode` on the three planes of `picture`, with
/// the frame type and the bytes of the bitstream it returns. The call is made
/// with that picture, and pictures beyond 3840 by 2160 or below 16 by 16 are
/// refused. Apart from that the outcome rests on everything the encoder has seen
/// before and nothing is claimed of it.
#[verifier::external_body]
fn encode_picture(recorded: &mut Recorded, picture: &I420Buffer) -> (r: Result<
    EncodedFrame,
    String,
>)
    requires
        picture@.well_formed(),
    ensures
        final(recorded).calls@ == old(recorded).calls@.push(
            (EncoderCall::Encode { picture: picture@, outcome: outcome_of(r) }),
        ),
        too_large(picture@.width, picture@.height) ==> r is Err,
        too_small(picture@.width, picture@.height) ==> r is Err,
{
    let planes = (picture.y(), picture.u(), picture.v());
    let source = YUVSlices::new(planes, picture.dimensions(), picture.strides());
    let stream = recorded.encoder.encode(&source).map_err(|e| e.to_string())?;
    let kind = match stream.frame_type() {
        FrameType::Invalid => FrameKind::Invalid,
        FrameType::IDR => FrameKind::Idr,
        FrameType::I => FrameKind::Intra,
        FrameType::P => FrameKind::Predicted,
        FrameType::Skip => FrameKind::Skipped,
        FrameType::IPMixed => FrameKind::Mixed,
    };
    Ok(EncodedFrame { kind, data: stream.to_vec() })
}

/// The shortest sample duration, in milliseconds. Anything shorter (jitter, a
/// repeated stamp) would distort the RTP clock more than the clamped value.
pub const MIN_SAMPLE_MILLIS: u64 = 1;

/// The longest sample duration, in seconds, for the same reason: a source
/// stall or a clock hiccup.
pub const MAX_SAMPLE_SECS: u64 = 1;

/// The duration of a sample captured at `ts`, in nanoseconds: the time since
/// the previous written sample within bounds, or the fallback for the first.
pub open spec fn sample_nanos(previous: Option<nat>, fallback: nat, ts: nat) -> nat {
    match previous {
        None => fallback,
        Some(before) => {
            let since = time::since_nanos(ts, before);
            if since < MIN_SAMPLE_MILLIS * 1_000_000 {
                (MIN_SAMPLE_MILLIS * 1_000_000) as nat
            } else if since > MAX_SAMPLE_SECS * 1_000_000_000 {
                (MAX_SAMPLE_SECS * 1_000_000_000) as nat
            } else {
                since
            }
        },
    }
}

/// Derives sample durations from capture timestamps, so that variable frame
/// rates and dropped frames keep the RTP clock honest.
#[derive(Debug)]
pub struct SampleTimer {
    previous: Option<Timestamp>,
    fallback: Duration,
}

impl SampleTimer {
    /// The capture time of the last written sample, in nanoseconds.
    pub closed spec fn previous(&self) -> Option<nat> {
        match self.previous {
            Some(ts) => Some(ts@),
            None => None,
        }
    }

    /// The duration of the first sample, in nanoseconds.
    pub closed spec fn fallback(&self) -> nat {
        time::duration_nanos(self.fallback)
    }

    /// A timer that has seen no sample yet.
    pub fn new(fallback: Duration) -> (timer: SampleTimer)
        ensures
            timer.previous() is None,
            timer.fallback() == time::duration_nanos(fallback),
    {
        SampleTimer { previous: None, fallback }
    }

    /// The duration of the sample captured at `ts`, which becomes the previous
    /// one.
    pub fn stamp(&mut self, ts: Timestamp) -> (duration: Duration)
        ensures
            time::duration_nanos(duration) == sample_nanos(
                old(self).previous(),
                old(self).fallback(),
                ts@,
            ),
            final(self).previous() == Some(ts@),
            final(self).fallback() == old(self).fallback(),
    {
        let shortest = Duration::from_millis(MIN_SAMPLE_MILLIS);
        let longest = Duration::from_secs(MAX_SAMPLE_SECS);
        let duration = match self.previous {
            None => self.fallback,
            Some(before) => {
                let since = ts.saturating_since(before);
                if since.as_nanos() < shortest.as_nanos() {
                    shortest
                } else if since.as_nanos() > longest.as_nanos() {
                    longest
                } else {
                    since
                }
            },
        };
        self.previous = Some(ts);
        duration
    }

    /// Times what the encoder made of the frame captured at `ts`.
    ///
    /// An encoder failure is fatal. Where rate control chose to emit nothing
    /// there is no sample, and the next written sample's duration absorbs the
    /// gap.
    pub fn finish(&mut self, ts: Timestamp, output: Result<EncodedFrame, String>) -> (step:
        VideoStep)
        ensures
            final(self).fallback() == old(self).fallback(),
            step_follows(
                outcome_of(output),
                old(self).previous(),
                old(self).fallback(),
                ts@,
                step,
                final(self).previous(),
            ),
    {
        match output {
            Err(complaint) => {
                let mut m = "h264 encode: ".to_owned();
                m.append(complaint.as_str());
                VideoStep::Failed(MediaError::Encode(m))
            },
            Ok(frame) => {
                if frame.kind == FrameKind::Skipped || frame.data.len() == 0 {
                    return VideoStep::Skipped;
                }
                let duration = self.stamp(ts);
                VideoStep::Sample { data: frame.data, duration }
            },
        }
    }
}

/// The outcome of encoding one frame.
#[derive(Debug)]
pub enum VideoStep {
    /// A sample for the track.
    Sample { data: Vec<u8>, duration: Duration },
    /// The encoder emitted nothing for this frame.
    Skipped,
    /// The frame could not be converted. One bad frame is not worth killing the
    /// stream over; wait for the next.
    Unconvertible(MediaError),
    /// The encoder failed, which ends the stream.
    Failed(MediaError),
}

/// Whether a step is what follows from what came of the picture captured at
/// `ts`: the sample has the bytes that were made and the duration since the
/// previous one, and becomes the previous one itself.
pub open spec fn step_follows(
    outcome: Outcome,
    previous: Option<nat>,
    fallback: nat,
    ts: nat,
    step: VideoStep,
    after: Option<nat>,
) -> bool {
    match outcome {
        Outcome::Failed(complaint) => {
            &&& step matches VideoStep::Failed(MediaError::Encode(m))
            &&& m@ == "h264 encode: "@ + complaint
            &&& after == previous
        },
        Outcome::Encoded { kind, data } => if kind is Skipped || data.len() == 0 {
            step is Skipped && after == previous
        } else {
            &&& step matches VideoStep::Sample { data: sample, duration }
            &&& sample@ == data
            &&& time::duration_nanos(duration) == sample_nanos(previous, fallback, ts)
            &&& after == Some(ts)
        },
    }
}

/// The calls that come before a frame is converted: a request for a keyframe
/// where one is wanted.
pub open spec fn keyframe_calls(want_idr: bool) -> Seq<EncoderCall> {
    if want_idr {
        seq![EncoderCall::ForceIntra]
    } else {
        seq![]
    }
}

/// An H.264 encoder with its conversion scratch and sample timer.
pub struct VideoEncoder {
    recorded: Recorded,
    scratch: I420Buffer,
    timer: SampleTimer,
}

impl VideoEncoder {
    /// The calls made to the encoder so far, in order.
    pub closed spec fn asked(&self) -> Seq<EncoderCall> {
        self.recorded.calls@
    }

    /// The capture time of the last written sample, in nanoseconds.
    pub closed spec fn previous(&self) -> Option<nat> {
        self.timer.previous()
    }

    /// The duration of the first sample, in nanoseconds.
    pub closed spec fn fallback(&self) -> nat {
        self.timer.fallback()
    }

    /// Wraps a configured encoder; `fallback` is the duration of the first
    /// sample, which has no predecessor.
    pub fn new(encoder: Encoder, fallback: Duration) -> (this: VideoEncoder)
        ensures
            this.asked() == Seq::<EncoderCall>::empty(),
            this.previous() is None,
            this.fallback() == time::duration_nanos(fallback),
    {
        VideoEncoder {
            recorded: Recorded { encoder, calls: Ghost(Seq::empty()) },
            scratch: I420Buffer::new(),
            timer: SampleTimer::new(fallback),
        }
    }

    /// Converts and encodes one frame, as a keyframe if `want_idr`.
    ///
    /// What the encoder emits for a picture is its own affair; stated here is
    /// which calls are made to it, when they are bound to fail, and what becomes
    /// of what it returns.
    pub fn encode_frame(&mut self, frame: &VideoFrame, want_idr: bool) -> (step: VideoStep)
        ensures
            final(self).fallback() == old(self).fallback(),
            match convert::frame_planes(
                frame.format,
                video::bytes_contents(frame.data),
                frame.width as nat,
                frame.height as nat,
            ) {
                Err(message) => {
                    &&& final(self).asked() == old(self).asked() + keyframe_calls(want_idr)
                    &&& step matches VideoStep::Unconvertible(MediaError::Convert(m))
                    &&& m@ == message
                    &&& final(self).previous() == old(self).previous()
                },
                Ok(planes) => {
                    &&& final(self).asked() == old(self).asked() + keyframe_calls(want_idr).push(
                        final(self).asked().last(),
                    )
                    &&& final(self).asked().last() matches EncoderCall::Encode { picture, outcome }
                    &&& picture == planes
                    &&& too_large(planes.width, planes.height) ==> outcome is Failed
                    &&& too_small(planes.width, planes.height) ==> outcome is Failed
                    &&& step_follows(
                        outcome,
                        old(self).previous(),
                        old(self).fallback(),
                        frame.ts@,
                        step,
                        final(self).previous(),
                    )
                },
            },
    {
        if want_idr {
            force_intra(&mut self.recorded);
        }
        match convert::to_i420(frame, &mut self.scratch) {
            Ok(()) => {},
            Err(e) => {
                return VideoStep::Unconvertible(e);
            },
        }
        let output = encode_picture(&mut self.recorded, &self.scratch);
        self.timer.finish(frame.ts, output)
    }
}

/// Every sample after the first lasts between a millisecond and a second.
pub proof fn law_sample_durations_are_bounded(before: nat, fallback: nat, ts: nat)
    ensures
        1_000_000 <= sample_nanos(Some(before), fallback, ts) <= 1_000_000_000,
{
}

/// The durations of the samples written at `times`, added up, the first one
/// left out.
pub open spec fn elapsed_nanos(times: Seq<nat>) -> nat
    decreases times.len(),
{
    if times.len() <= 1 {
        0
    } else {
        elapsed_nanos(times.drop_last()) + sample_nanos(
            Some(times[times.len() - 2]),
            0,
            times.last(),
        )
    }
}

/// Samples keep time whatever the frame rate and whichever frames were dropped
/// in between: as long as neighbouring samples are a millisecond to a second
/// apart, their durations add up to the capture time they span.
pub proof fn law_samples_keep_time(times: Seq<nat>)
    requires
        times.len() > 0,
        forall|i: int|
            1 <= i < times.len() ==> times[i - 1] + 1_000_000 <= #[trigger] times[i] <= times[i - 1]
                + 1_000_000_000,
    ensures
        times[0] + elapsed_nanos(times) == times.last(),
    decreases times.len(),
{
    if times.len() > 1 {
        let shorter = times.drop_last();
        assert forall|i: int| 1 <= i < shorter.len() implies shorter[i - 1] + 1_000_000
            <= #[trigger] shorter[i] <= shorter[i - 1] + 1_000_000_000 by {
            assert(shorter[i] == times[i]);
        }
        law_samples_keep_time(shorter);
        assert(times.last() == times[times.len() - 1]);
    }
}

/// A sample lasts as long as it took from the previous one to be captured, but no
/// less than a millisecond and no more than a second; the first one lasts as long
/// as it was said to.
pub proof fn law_samples_last_until_the_next(before: nat, fallback: nat, ts: nat)
    ensures
        before + 1_000_000 <= ts <= before + 1_000_000_000 ==> before + sample_nanos(
            Some(before),
            fallback,
            ts,
        ) == ts,
        ts < before + 1_000_000 ==> sample_nanos(Some(before), fallback, ts) == 1_000_000,
        ts > before + 1_000_000_000 ==> sample_nanos(Some(before), fallback, ts) == 1_000_000_000,
        sample_nanos(None, fallback, ts) == fallback,
{
}

/// The bytes that were made of a picture are the sample; nothing is made where
/// the encoder skipped it or gave no bytes, and its failure is final and told. Only
/// a sample moves the time on.
pub proof fn law_steps_follow_outcomes(
    output: Result<EncodedFrame, String>,
    previous: Option<nat>,
    fallback: nat,
    ts: nat,
    step: VideoStep,
    after: Option<nat>,
)
    requires
        step_follows(outcome_of(output), previous, fallback, ts, step, after),
    ensures
        step is Failed <==> output is Err,
        output matches Err(complaint) ==> (step matches VideoStep::Failed(error) && error.text()
            == "encoder error: "@ + ("h264 encode: "@ + complaint@)),
        output matches Ok(frame) ==> {
            &&& step is Skipped <==> frame.kind is Skipped || frame.data@.len() == 0
            &&& step matches VideoStep::Sample { data, duration } ==> {
                &&& data@ == frame.data@
                &&& match previous {
                    None => time::duration_nanos(duration) == fallback,
                    Some(before) => {
                        &&& before + 1_000_000 <= ts <= before + 1_000_000_000 ==> before
                            + time::duration_nanos(duration) == ts
                        &&& ts < before + 1_000_000 ==> time::duration_nanos(duration) == 1_000_000
                        &&& ts > before + 1_000_000_000 ==> time::duration_nanos(duration)
                            == 1_000_000_000
                    },
                }
            }
        },
        step is Sample ==> after == Some(ts),
        !(step is Sample) ==> after == previous,
        !(step is Unconvertible),
{
}

/// A sample after skipped frames lasts from the sample before them: the gap is
/// not lost.
pub proof fn law_skipped_frames_lengthen_the_next_sample(
    skipped: Outcome,
    written: Outcome,
    fallback: nat,
    times: (nat, nat, nat),
    steps: (VideoStep, VideoStep),
    between: Option<nat>,
    after: Option<nat>,
)
    requires
        step_follows(skipped, Some(times.0), fallback, times.1, steps.0, between),
        steps.0 is Skipped,
        step_follows(written, between, fallback, times.2, steps.1, after),
        times.0 + 1_000_000 <= times.2 <= times.0 + 1_000_000_000,
    ensures
        steps.1 matches VideoStep::Sample { data, duration } ==> times.0 + time::duration_nanos(
            duration,
        ) == times.2,
{
}

/// A keyframe is asked for once, before the picture, exactly where it is wanted.
pub proof fn law_keyframes_are_asked_for(want_idr: bool)
    ensures
        keyframe_calls(want_idr).len() == (if want_idr {
            1nat
        } else {
            0
        }),
        want_idr ==> keyframe_calls(want_idr)[0] is ForceIntra,
{
}

} // verus!
