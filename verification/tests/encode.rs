use bytes::Bytes;
use joy::audio::AudioChunk;
use joy::codec::{h264_offer, offered_codecs, opus_offer, MediaKind, STREAM_ID};
use joy::encode::audio::{
    chunk_duration, encoder_settings, AudioPipeline, AudioStep, ChannelLayout, EncoderSettings,
};
use joy::encode::video::{EncodedFrame, FrameKind, SampleTimer, VideoEncoder, VideoStep};
use joy::error::MediaError;
use joy::time::Timestamp;
use joy::video::{PixelFormat, VideoFrame};
use openh264::encoder::{Encoder, EncoderConfig, FrameType};
use openh264::formats::YUVSource;
use openh264::OpenH264API;
use std::sync::Arc;
use std::time::Duration;
use webrtc::api::media_engine::{MIME_TYPE_H264, MIME_TYPE_OPUS};

/// Minimal owned I420 buffer implementing the encoder's input trait.
struct TestI420 {
    width: usize,
    height: usize,
    y: Vec<u8>,
    u: Vec<u8>,
    v: Vec<u8>,
}

impl TestI420 {
    /// Builds a flat gray frame with a per-frame brightness ramp so consecutive
    /// frames differ and the encoder has real work to do.
    fn new(width: usize, height: usize, seed: u8) -> Self {
        Self {
            width,
            height,
            y: vec![seed.wrapping_add(64); width * height],
            u: vec![128; width * height / 4],
            v: vec![128; width * height / 4],
        }
    }
}

impl YUVSource for TestI420 {
    fn dimensions(&self) -> (usize, usize) {
        (self.width, self.height)
    }

    fn strides(&self) -> (usize, usize, usize) {
        (self.width, self.width / 2, self.width / 2)
    }

    fn y(&self) -> &[u8] {
        &self.y
    }

    fn u(&self) -> &[u8] {
        &self.u
    }

    fn v(&self) -> &[u8] {
        &self.v
    }
}

/// Collects the NAL unit types present in an Annex-B bitstream.
fn nal_types(annexb: &[u8]) -> Vec<u8> {
    let mut types = Vec::new();
    let mut i = 0;
    while i + 3 < annexb.len() {
        let (start, len) = if annexb[i..].starts_with(&[0, 0, 0, 1]) {
            (i + 4, 4)
        } else if annexb[i..].starts_with(&[0, 0, 1]) {
            (i + 3, 3)
        } else {
            i += 1;
            continue;
        };
        if start < annexb.len() {
            types.push(annexb[start] & 0x1f);
        }
        i += len;
    }
    types
}

fn new_encoder() -> Encoder {
    Encoder::with_api_config(OpenH264API::from_source(), EncoderConfig::new())
        .expect("encoder construction")
}

fn at_millis(ms: u64) -> Timestamp {
    Timestamp::from_offset(Duration::from_millis(ms))
}

fn gray_frame(ms: u64, width: u32, height: u32, level: u8) -> VideoFrame {
    VideoFrame {
        ts: at_millis(ms),
        format: PixelFormat::Luma8,
        width,
        height,
        data: Bytes::from(vec![level; (width * height) as usize]),
    }
}

fn chunk(sample_rate: u32, channels: u16, frames: usize) -> AudioChunk<f32> {
    AudioChunk {
        ts: Timestamp::default(),
        sample_rate,
        channels,
        samples: Arc::from(vec![0f32; frames * channels as usize]),
    }
}

fn settings(c: &AudioChunk<f32>) -> Result<EncoderSettings, MediaError> {
    encoder_settings(c.sample_rate, c.channels)
}

#[test]
fn h264_first_frame_carries_sps_pps_idr() {
    let config = EncoderConfig::new();
    let mut encoder =
        Encoder::with_api_config(OpenH264API::from_source(), config).expect("encoder construction");

    let frame = TestI420::new(320, 240, 0);
    let bitstream = encoder.encode(&frame).expect("encode");
    assert_eq!(bitstream.frame_type(), FrameType::IDR);

    let bytes = bitstream.to_vec();
    let types = nal_types(&bytes);
    assert!(types.contains(&7), "missing SPS in {types:?}");
    assert!(types.contains(&8), "missing PPS in {types:?}");
    assert!(types.contains(&5), "missing IDR slice in {types:?}");
}

#[test]
fn h264_force_intra_frame_yields_new_idr() {
    let mut encoder = Encoder::with_api_config(OpenH264API::from_source(), EncoderConfig::new())
        .expect("encoder construction");

    let first = encoder.encode(&TestI420::new(320, 240, 0)).expect("encode");
    assert_eq!(first.frame_type(), FrameType::IDR);

    let second = encoder.encode(&TestI420::new(320, 240, 8)).expect("encode");
    assert_ne!(second.frame_type(), FrameType::IDR);

    encoder.force_intra_frame();
    let third = encoder
        .encode(&TestI420::new(320, 240, 16))
        .expect("encode");
    assert_eq!(third.frame_type(), FrameType::IDR);
    let types = nal_types(&third.to_vec());
    assert!(
        types.contains(&5),
        "forced intra produced no IDR slice: {types:?}"
    );
}

#[test]
fn h264_encoder_survives_resolution_change() {
    let mut encoder = Encoder::with_api_config(OpenH264API::from_source(), EncoderConfig::new())
        .expect("encoder construction");

    let small = encoder
        .encode(&TestI420::new(320, 240, 0))
        .expect("encode small");
    assert_eq!(small.frame_type(), FrameType::IDR);

    // The crate re-initializes the encoder internally on dimension change and
    // the new stream must restart with an IDR + parameter sets.
    let large = encoder
        .encode(&TestI420::new(640, 480, 0))
        .expect("encode large");
    assert_eq!(large.frame_type(), FrameType::IDR);
    let types = nal_types(&large.to_vec());
    assert!(
        types.contains(&7) && types.contains(&8),
        "no SPS/PPS after reinit: {types:?}"
    );
}

#[test]
fn valid_chunk_builds_encoder() {
    assert!(settings(&chunk(48_000, 1, 960)).is_ok());
    assert!(settings(&chunk(16_000, 2, 320)).is_ok());
}

#[test]
fn cd_sample_rate_is_rejected() {
    let err = settings(&chunk(44_100, 1, 882)).unwrap_err();
    assert!(matches!(err, MediaError::Encode(_)), "{err:?}");
}

#[test]
fn surround_channels_are_rejected() {
    let err = settings(&chunk(48_000, 6, 960)).unwrap_err();
    assert!(matches!(err, MediaError::Encode(_)), "{err:?}");
}

#[test]
fn wrong_chunk_size_fails_the_task() {
    // 10 ms instead of 20 ms.
    let short = chunk(48_000, 1, 480);
    let mut pipeline = AudioPipeline::new();
    assert!(matches!(pipeline.on_chunk(&short), AudioStep::Build(_)));
    match pipeline.on_built(&short, Ok(())) {
        AudioStep::Fail(MediaError::Encode(m)) => assert_eq!(
            m,
            "audio chunk is 480 frames, pipeline requires 20 ms chunks (960 frames at 48000 Hz)"
        ),
        other => panic!("not failed: {other:?}"),
    }
}

#[test]
fn encodes_20ms_chunks_until_source_closes() {
    let mut pipeline = AudioPipeline::new();
    let first = chunk(48_000, 1, 960);
    assert!(matches!(pipeline.on_chunk(&first), AudioStep::Build(_)));
    assert!(matches!(pipeline.on_built(&first, Ok(())), AudioStep::Encode));
    for _ in 0..2 {
        assert!(matches!(pipeline.on_chunk(&chunk(48_000, 1, 960)), AudioStep::Encode));
    }
    assert_eq!(chunk_duration(), Duration::from_millis(20));
}

#[test]
fn unsupported_audio_is_explained() {
    assert_eq!(
        encoder_settings(44_100, 1).unwrap_err().message(),
        "encoder error: unsupported audio sample rate 44100 Hz (Opus needs 8/16/24/48 kHz; resampling is not implemented)"
    );
    assert_eq!(
        encoder_settings(48_000, 6).unwrap_err().message(),
        "encoder error: unsupported audio channel count 6 (need mono or stereo)"
    );
    for rate in [8_000, 16_000, 24_000, 48_000] {
        let mono = encoder_settings(rate, 1).expect("mono");
        assert_eq!(mono, EncoderSettings { sample_rate: rate, layout: ChannelLayout::Mono });
        let stereo = encoder_settings(rate, 2).expect("stereo");
        assert_eq!(stereo, EncoderSettings { sample_rate: rate, layout: ChannelLayout::Stereo });
    }
    assert!(encoder_settings(48_000, 0).is_err());
}

#[test]
fn a_source_restart_rebuilds_the_audio_encoder() {
    let mut pipeline = AudioPipeline::new();
    let mono = chunk(48_000, 1, 960);
    assert!(matches!(pipeline.on_chunk(&mono), AudioStep::Build(_)));
    assert!(matches!(pipeline.on_built(&mono, Ok(())), AudioStep::Encode));
    let stereo = chunk(48_000, 2, 960);
    match pipeline.on_chunk(&stereo) {
        AudioStep::Build(settings) => assert_eq!(settings.layout, ChannelLayout::Stereo),
        other => panic!("not rebuilt: {other:?}"),
    }
    assert!(matches!(pipeline.on_built(&stereo, Ok(())), AudioStep::Encode));
    let slower = chunk(8_000, 2, 160);
    assert!(matches!(pipeline.on_chunk(&slower), AudioStep::Build(_)));
    match pipeline.on_built(&slower, Err("no memory".to_owned())) {
        AudioStep::Fail(e) => {
            assert_eq!(e.message(), "encoder error: opus encoder construction: no memory");
        }
        other => panic!("not failed: {other:?}"),
    }
    assert!(matches!(pipeline.on_chunk(&chunk(44_100, 2, 882)), AudioStep::Fail(_)));
}

#[test]
fn sample_durations_follow_the_capture_clock() {
    let mut timer = SampleTimer::new(Duration::from_millis(66));
    assert_eq!(timer.stamp(at_millis(1_000)), Duration::from_millis(66));
    assert_eq!(timer.stamp(at_millis(1_040)), Duration::from_millis(40));
    assert_eq!(timer.stamp(at_millis(1_040)), Duration::from_millis(1));
    assert_eq!(timer.stamp(at_millis(900)), Duration::from_millis(1));
    assert_eq!(timer.stamp(at_millis(9_000)), Duration::from_secs(1));
    assert_eq!(timer.stamp(at_millis(10_000)), Duration::from_secs(1));
}

#[test]
fn durations_add_up_over_dropped_frames() {
    let mut timer = SampleTimer::new(Duration::from_millis(66));
    timer.stamp(at_millis(100));
    let mut total = Duration::ZERO;
    for ms in [120, 155, 400, 401, 1_300] {
        total += timer.stamp(at_millis(ms));
    }
    assert_eq!(total, Duration::from_millis(1_200));
}

#[test]
fn skipped_frames_leave_the_gap_to_the_next() {
    let mut timer = SampleTimer::new(Duration::from_millis(66));
    let encoded = |data: Vec<u8>| Ok(EncodedFrame { kind: FrameKind::Predicted, data });
    assert!(matches!(timer.finish(at_millis(0), encoded(vec![1])), VideoStep::Sample { .. }));
    let skipped = Ok(EncodedFrame { kind: FrameKind::Skipped, data: vec![1] });
    assert!(matches!(timer.finish(at_millis(50), skipped), VideoStep::Skipped));
    assert!(matches!(timer.finish(at_millis(100), encoded(vec![])), VideoStep::Skipped));
    match timer.finish(at_millis(150), encoded(vec![7, 8])) {
        VideoStep::Sample { data, duration } => {
            assert_eq!(data, vec![7, 8]);
            assert_eq!(duration, Duration::from_millis(150));
        }
        other => panic!("no sample: {other:?}"),
    }
    match timer.finish(at_millis(200), Err("broken".to_owned())) {
        VideoStep::Failed(e) => assert_eq!(e.message(), "encoder error: h264 encode: broken"),
        other => panic!("not failed: {other:?}"),
    }
}

#[test]
fn frames_become_samples() {
    let mut encoder = VideoEncoder::new(new_encoder(), Duration::from_millis(66));
    match encoder.encode_frame(&gray_frame(0, 320, 240, 60), false) {
        VideoStep::Sample { data, duration } => {
            let types = nal_types(&data);
            assert!(types.contains(&7) && types.contains(&8) && types.contains(&5), "{types:?}");
            assert_eq!(duration, Duration::from_millis(66));
        }
        other => panic!("no sample: {other:?}"),
    }
    match encoder.encode_frame(&gray_frame(40, 320, 240, 70), false) {
        VideoStep::Sample { data, duration } => {
            assert!(!nal_types(&data).contains(&5));
            assert_eq!(duration, Duration::from_millis(40));
        }
        other => panic!("no sample: {other:?}"),
    }
    match encoder.encode_frame(&gray_frame(90, 320, 240, 80), true) {
        VideoStep::Sample { data, duration } => {
            assert!(nal_types(&data).contains(&5), "a keyframe was asked for");
            assert_eq!(duration, Duration::from_millis(50));
        }
        other => panic!("no sample: {other:?}"),
    }
    match encoder.encode_frame(&gray_frame(140, 640, 480, 80), false) {
        VideoStep::Sample { data, .. } => assert!(nal_types(&data).contains(&7)),
        other => panic!("no sample: {other:?}"),
    }
}

#[test]
fn one_bad_frame_does_not_end_the_stream() {
    let mut encoder = VideoEncoder::new(new_encoder(), Duration::from_millis(66));
    assert!(matches!(
        encoder.encode_frame(&gray_frame(0, 320, 240, 60), false),
        VideoStep::Sample { .. }
    ));
    match encoder.encode_frame(&gray_frame(40, 321, 240, 60), false) {
        VideoStep::Unconvertible(e) => assert_eq!(
            e.message(),
            "pixel conversion failed: odd dimensions unsupported for 4:2:0 output: 321x240"
        ),
        other => panic!("not dropped: {other:?}"),
    }
    match encoder.encode_frame(&gray_frame(80, 320, 240, 90), false) {
        VideoStep::Sample { duration, .. } => assert_eq!(duration, Duration::from_millis(80)),
        other => panic!("no sample: {other:?}"),
    }
}

#[test]
fn a_keyframe_request_outlives_a_bad_frame() {
    let mut encoder = VideoEncoder::new(new_encoder(), Duration::from_millis(66));
    for ms in [0, 40] {
        assert!(matches!(
            encoder.encode_frame(&gray_frame(ms, 320, 240, 60), false),
            VideoStep::Sample { .. }
        ));
    }
    assert!(matches!(
        encoder.encode_frame(&gray_frame(80, 321, 240, 60), true),
        VideoStep::Unconvertible(_)
    ));
    match encoder.encode_frame(&gray_frame(120, 320, 240, 70), false) {
        VideoStep::Sample { data, .. } => assert!(nal_types(&data).contains(&5)),
        other => panic!("no sample: {other:?}"),
    }
}

#[test]
fn oversized_pictures_fail_the_encoder() {
    let mut encoder = VideoEncoder::new(new_encoder(), Duration::from_millis(66));
    match encoder.encode_frame(&gray_frame(0, 3_842, 16, 60), false) {
        VideoStep::Failed(MediaError::Encode(m)) => assert!(m.starts_with("h264 encode: "), "{m}"),
        other => panic!("not failed: {other:?}"),
    }
    assert!(matches!(
        encoder.encode_frame(&gray_frame(0, 2_162, 2_162, 60), false),
        VideoStep::Failed(_)
    ));
}

#[test]
fn undersized_pictures_fail_the_encoder() {
    let mut encoder = VideoEncoder::new(new_encoder(), Duration::from_millis(66));
    for (at, width, height) in [(0, 14, 240), (40, 320, 14), (80, 2, 2), (120, 2, 2)] {
        match encoder.encode_frame(&gray_frame(at, width, height, 60), true) {
            VideoStep::Failed(MediaError::Encode(m)) => {
                assert!(m.starts_with("h264 encode: "), "{m}")
            }
            other => panic!("not failed: {other:?}"),
        }
    }
    assert!(matches!(
        encoder.encode_frame(&gray_frame(160, 16, 16, 60), false),
        VideoStep::Sample { .. }
    ));
}

#[test]
fn both_codecs_are_offered() {
    let video = h264_offer();
    assert_eq!(video.kind, MediaKind::Video);
    assert_eq!((video.payload_type, video.clock_rate, video.channels), (102, 90_000, 0));
    assert_eq!((video.mime_type.as_str(), video.track_id.as_str()), (MIME_TYPE_H264, "video"));
    assert_eq!(
        video.sdp_fmtp_line,
        "level-asymmetry-allowed=1;packetization-mode=1;profile-level-id=42e01f"
    );
    let audio = opus_offer();
    assert_eq!(audio.kind, MediaKind::Audio);
    assert_eq!((audio.payload_type, audio.clock_rate, audio.channels), (111, 48_000, 2));
    assert_eq!((audio.mime_type.as_str(), audio.track_id.as_str()), (MIME_TYPE_OPUS, "audio"));
    assert_eq!(audio.sdp_fmtp_line, "minptime=10;useinbandfec=1");
    assert_eq!(offered_codecs(), vec![video, audio]);
    assert_eq!(STREAM_ID, "joy");
}
