//! The shared Opus audio encoder: which chunks it takes, and when it has to be
//! built anew.
//!
//! An encoder is created lazily from a chunk's actual sample rate and channel
//! count, since the capture backend may not have honored the requested
//! configuration. Whatever the pipeline does not support fails loudly: a baby
//! monitor with quietly missing audio is worse than one that refuses to start.
use crate::audio::{self, AudioChunk};
use crate::error::MediaError;
use crate::text;
use crate::time;
use std::time::Duration;
use vstd::prelude::*;
use vstd::string::*;

verus! {

/// Maximum size of one encoded Opus packet.
pub const MAX_OPUS_PACKET: usize = 4000;

/// The chunk cadence of the pipeline, in milliseconds: the native frame
/// duration of Opus and the default of the capture layer.
pub const CHUNK_MILLIS: u64 = 20;

/// The chunk cadence as a duration.
pub fn chunk_duration() -> (d: Duration)
    ensures
        time::duration_nanos(d) == 20_000_000,
{
    Duration::from_millis(CHUNK_MILLIS)
}

/// The channel layouts Opus encodes.
#[derive(Debug, Clone, Copy, PartialEq, Eq, Structural)]
pub enum ChannelLayout {
    Mono,
    Stereo,
}

/// What an Opus encoder is built for.
#[derive(Debug, Clone, Copy, PartialEq, Eq, Structural)]
pub struct EncoderSettings {
    pub sample_rate: u32,
    pub layout: ChannelLayout,
}

/// The sample rates Opus encodes.
pub open spec fn rate_supported(sample_rate: u32) -> bool {
    sample_rate == 8_000 || sample_rate == 16_000 || sample_rate == 24_000 || sample_rate == 48_000
}

/// The settings for a sample rate and channel count, or why there are none.
pub open spec fn settings_for(sample_rate: u32, channels: u16) -> Result<
    EncoderSettings,
    Seq<char>,
> {
    if !rate_supported(sample_rate) {
        Err(
            "unsupported audio sample rate "@ + text::decimal(sample_rate as nat)
                + " Hz (Opus needs 8/16/24/48 kHz; resampling is not implemented)"@,
        )
    } else if channels == 1 {
        Ok(EncoderSettings { sample_rate, layout: ChannelLayout::Mono })
    } else if channels == 2 {
        Ok(EncoderSettings { sample_rate, layout: ChannelLayout::Stereo })
    } else {
        Err(
            "unsupported audio channel count "@ + text::decimal(channels as nat)
                + " (need mono or stereo)"@,
        )
    }
}

/// Validates a sample rate and channel count and gives the encoder settings for
/// them.
pub fn encoder_settings(sample_rate: u32, channels: u16) -> (r: Result<
    EncoderSettings,
    MediaError,
>)
    ensures
        match settings_for(sample_rate, channels) {
            Ok(settings) => r == Ok::<EncoderSettings, MediaError>(settings),
            Err(message) => r matches Err(MediaError::Encode(m)) && m@ == message,
        },
{
    if sample_rate != 8_000 && sample_rate != 16_000 && sample_rate != 24_000 && sample_rate
        != 48_000 {
        let mut m = "unsupported audio sample rate ".to_owned();
        text::push_decimal(&mut m, sample_rate as u128);
        m.append(" Hz (Opus needs 8/16/24/48 kHz; resampling is not implemented)");
        return Err(MediaError::Encode(m));
    }
    match channels {
        1 => Ok(EncoderSettings { sample_rate, layout: ChannelLayout::Mono }),
        2 => Ok(EncoderSettings { sample_rate, layout: ChannelLayout::Stereo }),
        _ => {
            let mut m = "unsupported audio channel count ".to_owned();
            text::push_decimal(&mut m, channels as u128);
            m.append(" (need mono or stereo)");
            Err(MediaError::Encode(m))
        },
    }
}

/// The complaint about a chunk of the wrong length.
pub open spec fn cadence_error(frames: nat, sample_rate: nat) -> Seq<char> {
    "audio chunk is "@ + text::decimal(frames) + " frames, pipeline requires 20 ms chunks ("@
        + text::decimal(sample_rate / 50) + " frames at "@ + text::decimal(sample_rate) + " Hz)"@
}

/// What to do with a chunk.
#[derive(Debug)]
pub enum AudioStep {
    /// Build an encoder with these settings, then report back.
    Build(EncoderSettings),
    /// Encode the chunk with the current encoder.
    Encode,
    /// Fail the stream.
    Fail(MediaError),
}

/// Whether a step fails the stream with this complaint about encoding.
pub open spec fn fails_with(step: AudioStep, message: Seq<char>) -> bool {
    step matches AudioStep::Fail(MediaError::Encode(m)) && m@ == message
}

/// How a chunk is treated once an encoder for its rate and channels is there.
pub open spec fn admitted(step: AudioStep, frames: nat, sample_rate: nat) -> bool {
    if frames == sample_rate / 50 {
        step is Encode
    } else {
        fails_with(step, cadence_error(frames, sample_rate))
    }
}

/// Follows the chunks of one audio stream.
#[derive(Debug)]
pub struct AudioPipeline {
    built_for: Option<(u32, u16)>,
}

impl AudioPipeline {
    /// The sample rate and channel count the current encoder was built for.
    pub closed spec fn built_for(&self) -> Option<(u32, u16)> {
        self.built_for
    }

    /// An encoder is only ever built for what Opus supports.
    pub open spec fn well_formed(&self) -> bool {
        self.built_for() matches Some((sample_rate, channels)) ==> settings_for(
            sample_rate,
            channels,
        ) is Ok
    }

    /// A pipeline without an encoder.
    pub fn new() -> (pipeline: AudioPipeline)
        ensures
            pipeline.built_for() is None,
            pipeline.well_formed(),
    {
        AudioPipeline { built_for: None }
    }

    /// A chunk arrived. A change of rate or channel count, as after a source
    /// restart, calls for a new encoder.
    pub fn on_chunk<S>(&self, chunk: &AudioChunk<S>) -> (step: AudioStep)
        ensures
            if self.built_for() == Some((chunk.sample_rate, chunk.channels)) {
                admitted(step, chunk.frame_count(), chunk.sample_rate as nat)
            } else {
                match settings_for(chunk.sample_rate, chunk.channels) {
                    Ok(settings) => step == AudioStep::Build(settings),
                    Err(message) => fails_with(step, message),
                }
            },
    {
        let current = match self.built_for {
            Some((sample_rate, channels)) => sample_rate == chunk.sample_rate && channels
                == chunk.channels,
            None => false,
        };
        if current {
            return check_cadence(chunk);
        }
        match encoder_settings(chunk.sample_rate, chunk.channels) {
            Ok(settings) => AudioStep::Build(settings),
            Err(e) => AudioStep::Fail(e),
        }
    }

    /// The encoder asked for was built, or could not be.
    pub fn on_built<S>(&mut self, chunk: &AudioChunk<S>, outcome: Result<(), String>) -> (step:
        AudioStep)
        requires
            old(self).well_formed(),
            settings_for(chunk.sample_rate, chunk.channels) is Ok,
        ensures
            final(self).well_formed(),
            match outcome {
                Ok(()) => {
                    &&& final(self).built_for() == Some((chunk.sample_rate, chunk.channels))
                    &&& admitted(step, chunk.frame_count(), chunk.sample_rate as nat)
                },
                Err(complaint) => {
                    &&& final(self).built_for() == old(self).built_for()
                    &&& fails_with(step, "opus encoder construction: "@ + complaint@)
                },
            },
    {
        match outcome {
            Ok(()) => {
                self.built_for = Some((chunk.sample_rate, chunk.channels));
                check_cadence(chunk)
            },
            Err(complaint) => {
                let mut m = "opus encoder construction: ".to_owned();
                m.append(complaint.as_str());
                AudioStep::Fail(MediaError::Encode(m))
            },
        }
    }
}

/// Checks the length of a chunk against the pipeline's cadence.
fn check_cadence<S>(chunk: &AudioChunk<S>) -> (step: AudioStep)
    ensures
        admitted(step, chunk.frame_count(), chunk.sample_rate as nat),
{
    let frames: usize = chunk.frames();
    let expected: u32 = chunk.sample_rate / 50;
    if frames as u64 == expected as u64 {
        return AudioStep::Encode;
    }
    let mut m = "audio chunk is ".to_owned();
    text::push_decimal(&mut m, frames as u128);
    m.append(" frames, pipeline requires 20 ms chunks (");
    text::push_decimal(&mut m, expected as u128);
    m.append(" frames at ");
    text::push_decimal(&mut m, chunk.sample_rate as u128);
    m.append(" Hz)");
    AudioStep::Fail(MediaError::Encode(m))
}

/// Every chunk that reaches the encoder is at a rate and channel count that
/// Opus supports, and lasts exactly as long as the sample it becomes.
pub proof fn law_encoded_chunks_last_20_ms<S>(
    pipeline: AudioPipeline,
    chunk: AudioChunk<S>,
    step: AudioStep,
)
    requires
        pipeline.well_formed(),
        pipeline.built_for() == Some((chunk.sample_rate, chunk.channels)),
        admitted(step, chunk.frame_count(), chunk.sample_rate as nat),
        step is Encode,
    ensures
        rate_supported(chunk.sample_rate),
        chunk.channels == 1 || chunk.channels == 2,
        50 * chunk.frame_count() == chunk.sample_rate,
        audio::frames_nanos(chunk.frame_count(), chunk.sample_rate as nat) == 20_000_000,
{
    let rate = chunk.sample_rate as nat;
    assert(chunk.frame_count() == rate / 50);
    assert(chunk.frame_count() * 1_000_000_000 == rate * 20_000_000);
    vstd::arithmetic::div_mod::lemma_div_multiples_vanish(20_000_000, rate as int);
}

/// An encoder is built for mono or stereo at 8, 16, 24 or 48 kHz, with exactly the
/// rate and the channels that were asked for. Anything else is refused by name, the
/// rate before the channels.
pub proof fn law_what_opus_encodes(sample_rate: u32, channels: u16)
    ensures
        ({
            let rate_fits = sample_rate == 8_000 || sample_rate == 16_000 || sample_rate == 24_000
                || sample_rate == 48_000;
            match settings_for(sample_rate, channels) {
                Ok(settings) => {
                    &&& rate_fits
                    &&& settings.sample_rate == sample_rate
                    &&& match settings.layout {
                        ChannelLayout::Mono => channels == 1,
                        ChannelLayout::Stereo => channels == 2,
                    }
                },
                Err(message) => if !rate_fits {
                    message == "unsupported audio sample rate "@ + text::decimal(sample_rate as nat)
                        + " Hz (Opus needs 8/16/24/48 kHz; resampling is not implemented)"@
                } else {
                    &&& channels == 0 || channels > 2
                    &&& message == "unsupported audio channel count "@ + text::decimal(
                        channels as nat,
                    ) + " (need mono or stereo)"@
                },
            }
        }),
{
}

/// A chunk is encoded exactly when fifty of its length make a second; one of any
/// other length fails the stream, and the complaint names both lengths.
pub proof fn law_only_20_ms_chunks_are_encoded(
    step: AudioStep,
    frames: nat,
    sample_rate: nat,
    expected: nat,
)
    requires
        50 * expected <= sample_rate < 50 * expected + 50,
        admitted(step, frames, sample_rate),
    ensures
        step is Encode <==> frames == expected,
        !(step is Encode) ==> {
            &&& step matches AudioStep::Fail(error)
            &&& error.text() == "encoder error: "@ + ("audio chunk is "@ + text::decimal(frames)
                + " frames, pipeline requires 20 ms chunks ("@ + text::decimal(expected)
                + " frames at "@ + text::decimal(sample_rate) + " Hz)"@)
        },
{
}

/// A failing step carries the complaint as an encoder error.
pub proof fn law_failing_steps_complain(step: AudioStep, message: Seq<char>)
    requires
        fails_with(step, message),
    ensures
        step matches AudioStep::Fail(error) && error.text() == "encoder error: "@ + message,
{
}

} // verus!
