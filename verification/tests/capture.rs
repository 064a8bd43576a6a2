use bytes::Bytes;
use joy::audio::{interleave, AudioChunk, AudioConfig};
use joy::camera::{
    camera_selector, map_frame_format, open_failure, open_requests, CameraMode, CameraSelector,
    CaptureHealth, ErrorAction, FormatRequest, FrameAction, OpenAttempts, WireFormat,
    MAX_CONSECUTIVE_ERRORS,
};
use joy::error::CaptureError;
use joy::microphone::{
    check_config, choose_config, device_missing, find_device, ring_capacity, Drain, InputRange,
};
use joy::simulate::{
    is_audible, open_audio, open_video, pulse, render_pattern, ToneStream, BACKGROUND, FOREGROUND,
};
use joy::time::Timestamp;
use joy::video::{PixelFormat, VideoConfig, VideoFrame, VideoMode};
use std::sync::Arc;
use std::time::Duration;

/// A small configuration.
fn test_video_config() -> VideoConfig {
    VideoConfig {
        device: None,
        width: 64,
        height: 48,
        fps: 60,
    }
}

fn test_audio_config() -> AudioConfig {
    AudioConfig {
        device: None,
        sample_rate: 8_000,
        channels: 2,
        chunk_frames: 160,
    }
}

/// A quarter-scale 440 Hz sine for the next chunk of a stream.
fn sine(stream: &ToneStream, cfg: &AudioConfig) -> Vec<f32> {
    let step = std::f64::consts::TAU * 440.0 / cfg.sample_rate as f64;
    (0..cfg.chunk_frames as u64)
        .map(|frame| (((stream.next_frame() + frame) as f64 * step).sin() * 0.25) as f32)
        .collect()
}

fn range(channels: u16, min: u32, max: u32, native_float: bool) -> InputRange {
    InputRange { channels, min_sample_rate: min, max_sample_rate: max, native_float }
}

fn mode(format: WireFormat) -> CameraMode {
    CameraMode { width: 640, height: 480, fps: 30, format }
}

#[test]
fn video_frames_have_correct_shape() {
    let cfg = test_video_config();
    for index in 0..5 {
        let data = render_pattern(cfg.width, cfg.height, index);
        assert_eq!(data.len(), (cfg.width * cfg.height * 3) as usize);
    }
}

#[test]
fn consecutive_video_frames_differ() {
    let cfg = test_video_config();
    for index in 0..200 {
        let a = render_pattern(cfg.width, cfg.height, index);
        let b = render_pattern(cfg.width, cfg.height, index + 1);
        assert_ne!(a, b, "the pattern must move between frames");
    }
}

#[test]
fn video_caps_reflect_config() {
    let cfg = test_video_config();
    let caps = open_video(&cfg).unwrap();

    assert_eq!(caps.modes.len(), 1);
    assert_eq!(caps.modes[0].width, cfg.width);
    assert_eq!(caps.modes[0].height, cfg.height);
    assert_eq!(caps.modes[0].fps, cfg.fps);
    assert_eq!(caps.modes[0].format, PixelFormat::Rgb24);
}

#[test]
fn video_rejects_zero_config() {
    let cfg = VideoConfig {
        width: 0,
        ..test_video_config()
    };
    assert!(open_video(&cfg).is_err());
    assert_eq!(
        open_video(&cfg).unwrap_err().message(),
        "unsupported capture configuration: simulated video needs nonzero dimensions and fps, got 0x48@60"
    );
}

#[test]
fn audio_chunks_have_exact_shape_and_derived_timestamps() {
    let cfg = test_audio_config();
    let caps = open_audio(&cfg).unwrap();
    assert_eq!(caps.modes.len(), 1);
    assert_eq!(caps.modes[0].min_sample_rate, cfg.sample_rate);

    let expected_delta =
        Duration::from_nanos(cfg.chunk_frames as u64 * 1_000_000_000 / cfg.sample_rate as u64);
    let anchor = Timestamp::from_offset(Duration::from_millis(17));
    let mut stream = ToneStream::start(&cfg, anchor);

    let mut last_ts: Option<Timestamp> = None;
    for _ in 0..5 {
        assert!(stream.has_next());
        let tone = sine(&stream, &cfg);
        let chunk = stream.next_chunk(&tone, 0.0);
        assert_eq!(chunk.sample_rate, cfg.sample_rate);
        assert_eq!(chunk.channels, cfg.channels);
        assert_eq!(chunk.frames(), cfg.chunk_frames);
        assert_eq!(
            chunk.samples.len(),
            cfg.chunk_frames * cfg.channels as usize
        );
        if let Some(prev) = last_ts {
            assert_eq!(
                chunk.ts - prev,
                expected_delta,
                "derived timestamps advance by exactly one chunk duration"
            );
        }
        last_ts = Some(chunk.ts);
    }
}

#[test]
fn audio_tone_is_audible() {
    let cfg = test_audio_config();
    let mut stream = ToneStream::start(&cfg, Timestamp::default());
    let tone = sine(&stream, &cfg);
    let chunk = stream.next_chunk(&tone, 0.0);
    let sum_sq: f64 = chunk.samples.iter().map(|s| (*s as f64) * (*s as f64)).sum();
    let rms = (sum_sq / chunk.samples.len() as f64).sqrt();
    assert!(rms > 0.01, "the tone's first pulse must be audible");
    assert!(chunk.samples.iter().all(|s| s.abs() <= 1.0));
}

#[test]
fn audio_rejects_zero_config() {
    let cfg = AudioConfig {
        sample_rate: 0,
        ..test_audio_config()
    };
    assert!(open_audio(&cfg).is_err());
    assert_eq!(
        open_audio(&cfg).unwrap_err().message(),
        "unsupported capture configuration: simulated audio needs nonzero rate/channels/chunk, got 0 Hz, 2 ch, 160 frames"
    );
}

#[test]
fn the_tone_pulses_every_two_seconds() {
    let rate = 8_000;
    assert!(is_audible(0, rate));
    assert!(is_audible(15_999, rate));
    assert!(!is_audible(16_000, rate));
    assert!(!is_audible(31_999, rate));
    assert!(is_audible(32_000, rate));
    let values = pulse(&[1, 2, 3, 4], 0, 15_998, rate);
    assert_eq!(values, vec![1, 2, 0, 0]);
}

#[test]
fn the_square_is_bright_and_wraps() {
    // Side 6, step 3, 58 positions across and 42 down.
    let first = render_pattern(64, 48, 0);
    let bright = first.iter().filter(|b| **b == FOREGROUND).count();
    assert_eq!(bright, 6 * 6 * 3);
    assert_eq!(first.iter().filter(|b| **b == BACKGROUND).count(), 64 * 48 * 3 - bright);
    assert_eq!(first[0], FOREGROUND);
    assert_eq!(first[6 * 3], BACKGROUND);
    // Frame 14 is 42 steps along: x 42, y 42 % 42 = 0.
    let wrapped = render_pattern(64, 48, 14);
    assert_eq!(wrapped[42 * 3], FOREGROUND);
    assert_eq!(wrapped[41 * 3], BACKGROUND);
    // The square always lies inside the frame.
    for index in 0..40 {
        let data = render_pattern(40, 16, index);
        assert_eq!(data.iter().filter(|b| **b == FOREGROUND).count(), 2 * 2 * 3);
    }
    // Two pixels are room enough to move.
    for (width, height) in [(2, 2), (1, 2), (2, 1), (2, 3), (9, 2)] {
        for index in 0..20 {
            let data = render_pattern(width, height, index);
            assert_eq!(data.iter().filter(|b| **b == FOREGROUND).count(), 3);
            assert_ne!(data, render_pattern(width, height, index + 1));
        }
    }
    let (f, b) = (FOREGROUND, BACKGROUND);
    assert_eq!(render_pattern(1, 2, 0), Bytes::from(vec![f, f, f, b, b, b]));
    assert_eq!(render_pattern(1, 2, 1), Bytes::from(vec![b, b, b, f, f, f]));
    assert_eq!(render_pattern(2, 2, 1)[9..], [f, f, f]);
    // A narrow picture leaves the square the other dimension to move in.
    let narrow = render_pattern(2, 10, 1);
    let bright: Vec<usize> = (0..20).filter(|k| narrow[3 * k] == f).collect();
    assert_eq!(bright, vec![2]);
    // One pixel has nowhere to go.
    assert_eq!(render_pattern(1, 1, 0), Bytes::from(vec![FOREGROUND; 3]));
    assert_eq!(render_pattern(1, 1, 1), render_pattern(1, 1, 0));
}

#[test]
fn simulated_chunks_are_stamped_without_drift() {
    let cfg = AudioConfig { device: None, sample_rate: 44_100, channels: 2, chunk_frames: 3 };
    let anchor = Timestamp::from_offset(Duration::from_nanos(5));
    let mut stream = ToneStream::start(&cfg, anchor);
    for k in 0..1_000u64 {
        assert_eq!(stream.next_frame(), 3 * k);
        let chunk = stream.next_chunk(&[1, 2, 3], 0);
        let nanos = 5 + u128::from(3 * k) * 1_000_000_000 / 44_100;
        assert_eq!(chunk.ts.as_nanos(), nanos);
        assert_eq!(&chunk.samples[..], [1, 1, 2, 2, 3, 3]);
    }
    // Off for the second pulse, which begins within a chunk.
    let cfg = AudioConfig { device: None, sample_rate: 1, channels: 1, chunk_frames: 3 };
    let mut stream = ToneStream::start(&cfg, anchor);
    assert_eq!(&stream.next_chunk(&[7, 8, 9], 0).samples[..], [7, 8, 0]);
    assert_eq!(&stream.next_chunk(&[7, 8, 9], 0).samples[..], [0, 8, 9]);
    // A chunk that does not fit in memory cannot be made.
    let cfg = AudioConfig { device: None, sample_rate: 1, channels: 9, chunk_frames: usize::MAX };
    assert!(!ToneStream::start(&cfg, anchor).has_next());
}

#[test]
fn interleaving_repeats_every_channel() {
    assert_eq!(interleave(&[1, 2, 3], 2), vec![1, 1, 2, 2, 3, 3]);
    assert_eq!(interleave(&[1, 2, 3], 1), vec![1, 2, 3]);
    assert!(interleave(&[1, 2, 3], 0).is_empty());
}

#[test]
fn frames_are_counted_per_channel() {
    let chunk = |channels: u16, samples: usize| AudioChunk {
        ts: Timestamp::default(),
        sample_rate: 48_000,
        channels,
        samples: Arc::from(vec![0i16; samples]),
    };
    assert_eq!(chunk(2, 1920).frames(), 960);
    assert_eq!(chunk(1, 960).frames(), 960);
    assert_eq!(chunk(0, 7).frames(), 7);
    assert_eq!(chunk(2, 7).frames(), 3);
}

#[test]
fn defaults_are_the_documented_ones() {
    let video = VideoConfig::default();
    assert_eq!((video.width, video.height, video.fps), (1280, 720, 15));
    assert!(video.device.is_none());
    let audio = AudioConfig::default();
    assert_eq!((audio.sample_rate, audio.channels, audio.chunk_frames), (48_000, 1, 960));
    assert!(audio.device.is_none());
}

#[test]
fn only_mjpeg_is_compressed() {
    assert!(PixelFormat::Mjpeg.is_compressed());
    for format in [
        PixelFormat::Rgb24,
        PixelFormat::Yuyv,
        PixelFormat::Nv12,
        PixelFormat::Luma8,
    ] {
        assert!(!format.is_compressed());
        assert_eq!(format.name(), format!("{format:?}"));
    }
}

#[test]
fn cloned_frames_share_their_payload() {
    let frame = VideoFrame {
        ts: Timestamp::from_offset(Duration::from_millis(5)),
        format: PixelFormat::Luma8,
        width: 2,
        height: 2,
        data: Bytes::from(vec![1, 2, 3, 4]),
    };
    let copy = frame.clone();
    assert_eq!(copy.ts, frame.ts);
    assert_eq!(copy.data, frame.data);
    assert_eq!(copy.data.as_ptr(), frame.data.as_ptr());
}

#[test]
fn selectors_are_indices_or_names() {
    assert_eq!(camera_selector(&None), CameraSelector::Index(0));
    assert_eq!(camera_selector(&Some("2".into())), CameraSelector::Index(2));
    assert_eq!(camera_selector(&Some("+7".into())), CameraSelector::Index(7));
    assert_eq!(camera_selector(&Some("4294967295".into())), CameraSelector::Index(u32::MAX));
    for name in ["4294967296", "-1", "", "/dev/video0", "1 "] {
        assert_eq!(camera_selector(&Some(name.into())), CameraSelector::Name(name.into()));
    }
}

#[test]
fn camera_formats_are_requested_in_order() {
    let cfg = VideoConfig::default();
    let want = |format| {
        FormatRequest::Closest(CameraMode { width: 1280, height: 720, fps: 15, format })
    };
    assert_eq!(
        open_requests(&cfg),
        vec![
            want(WireFormat::Mjpeg),
            want(WireFormat::Yuyv),
            FormatRequest::HighestFrameRate,
        ]
    );
}

#[test]
fn camera_failures_name_the_device() {
    assert_eq!(
        open_failure(&CameraSelector::Index(0), Some("busy".into())).message(),
        "capture device not found: could not open camera 0: busy"
    );
    assert_eq!(
        open_failure(&CameraSelector::Index(4_294_967_295), None).message(),
        "capture device not found: could not open camera 4294967295: no formats accepted"
    );
}

#[test]
fn a_camera_is_asked_until_it_accepts() {
    let cfg = VideoConfig::default();
    let mut attempts = OpenAttempts::new(&cfg);
    for (i, request) in open_requests(&cfg).into_iter().enumerate() {
        assert_eq!(attempts.next_request(), Some(request));
        assert_eq!(attempts.next_request(), Some(request));
        attempts.on_refused(format!("refusal {i}"));
    }
    assert_eq!(attempts.next_request(), None);
    assert_eq!(
        attempts.failure(&CameraSelector::Index(10)).message(),
        "capture device not found: could not open camera 10: refusal 2"
    );
    assert_eq!(
        OpenAttempts::new(&cfg).failure(&CameraSelector::Name("/dev/x".into())).message(),
        "capture device not found: could not open camera /dev/x: no formats accepted"
    );
}

#[test]
fn camera_modes_are_mapped_or_fall_back() {
    let listed = vec![mode(WireFormat::Mjpeg), mode(WireFormat::Other), mode(WireFormat::Gray)];
    let caps = joy::camera::probe_caps(Some(listed), mode(WireFormat::Nv12));
    let formats: Vec<PixelFormat> = caps.modes.iter().map(|m| m.format).collect();
    assert_eq!(formats, vec![PixelFormat::Mjpeg, PixelFormat::Luma8]);

    let only = VideoMode { width: 640, height: 480, fps: 30, format: PixelFormat::Nv12 };
    for listed in [None, Some(vec![]), Some(vec![mode(WireFormat::Other)])] {
        let caps = joy::camera::probe_caps(listed, mode(WireFormat::Nv12));
        assert_eq!(caps.modes, vec![only]);
    }
    assert!(joy::camera::probe_caps(None, mode(WireFormat::Other)).modes.is_empty());
    assert_eq!(map_frame_format(WireFormat::RawRgb), Some(PixelFormat::Rgb24));
    assert_eq!(map_frame_format(WireFormat::Yuyv), Some(PixelFormat::Yuyv));
    assert_eq!(map_frame_format(WireFormat::Other), None);
}

#[test]
fn a_camera_is_given_up_after_a_run_of_failures() {
    let mut health = CaptureHealth::new();
    for _ in 1..MAX_CONSECUTIVE_ERRORS {
        assert_eq!(health.on_error(), ErrorAction::Retry);
    }
    assert_eq!(health.on_frame(WireFormat::Yuyv), FrameAction::Publish(PixelFormat::Yuyv));
    for _ in 1..MAX_CONSECUTIVE_ERRORS {
        assert_eq!(health.on_error(), ErrorAction::Retry);
    }
    assert_eq!(health.on_error(), ErrorAction::GiveUp);
}

#[test]
fn unknown_formats_are_warned_about_once() {
    let mut health = CaptureHealth::new();
    assert_eq!(health.on_frame(WireFormat::Other), FrameAction::Drop { warn: true });
    assert_eq!(health.on_frame(WireFormat::Other), FrameAction::Drop { warn: false });
    assert_eq!(health.on_frame(WireFormat::Mjpeg), FrameAction::Publish(PixelFormat::Mjpeg));
    assert_eq!(health.on_frame(WireFormat::Other), FrameAction::Drop { warn: false });
}

#[test]
fn microphones_are_found_by_name() {
    let names = [None, Some("usb".to_owned()), Some("mic".to_owned()), Some("mic".to_owned())];
    assert_eq!(find_device(&names, "mic"), Some(2));
    assert_eq!(find_device(&names, "usb"), Some(1));
    assert_eq!(find_device(&names, "line"), None);
    assert_eq!(
        device_missing(&Some("line".into())).message(),
        "capture device not found: line"
    );
    assert_eq!(
        device_missing(&None).message(),
        "capture device not found: no default input device"
    );
}

#[test]
fn microphone_ranges_are_chosen_by_rate_and_format() {
    let cfg = AudioConfig::default();
    let ranges = [
        range(2, 8_000, 96_000, true),
        range(1, 44_100, 44_100, true),
        range(1, 8_000, 48_000, false),
        range(1, 8_000, 96_000, true),
        range(1, 48_000, 48_000, true),
        range(1, 16_000, 48_000, false),
    ];
    assert_eq!(choose_config(&ranges, &cfg), Some(4));
    assert_eq!(choose_config(&ranges[..3], &cfg), Some(2));
    assert_eq!(choose_config(&ranges[..2], &cfg), None);
    let caps = joy::microphone::probe_caps(&ranges[..2]);
    assert_eq!(caps.modes.len(), 2);
    assert_eq!(caps.modes[1].max_sample_rate, 44_100);
    assert_eq!(ring_capacity(48_000, 2), 96_000);
}

#[test]
fn microphone_chunks_must_not_be_empty() {
    assert!(check_config(&AudioConfig::default()).is_ok());
    let cfg = AudioConfig { chunk_frames: 0, ..AudioConfig::default() };
    assert_eq!(
        check_config(&cfg).unwrap_err().message(),
        "unsupported capture configuration: chunk_frames must be nonzero"
    );
}

#[test]
fn the_drain_stamps_whole_chunks_from_its_anchor() {
    let mut drain = Drain::new(48_000, 2, 960);
    assert_eq!(drain.chunk_samples(), 1_920);
    assert_eq!(drain.take_chunk(1_919), None);
    let anchor = Timestamp::from_offset(Duration::from_secs(3));
    assert!(drain.start(anchor));
    assert_eq!(drain.take_chunk(4_000), Some(anchor));
    // A later reading of the clock does not move the anchor.
    assert!(drain.start(Timestamp::from_offset(Duration::from_secs(7))));
    assert_eq!(drain.take_chunk(1_920), Some(anchor + Duration::from_millis(20)));
    assert_eq!(drain.take_chunk(0), None);
}

#[test]
fn lost_samples_are_reported_once() {
    let mut drain = Drain::new(48_000, 1, 960);
    assert_eq!(drain.new_drops(0), None);
    assert_eq!(drain.new_drops(5), Some(5));
    assert_eq!(drain.new_drops(5), None);
    assert_eq!(drain.new_drops(12), Some(7));
}

#[test]
fn capture_errors_have_their_messages() {
    assert_eq!(CaptureError::Backend("x".into()).message(), "capture backend error: x");
    assert_eq!(CaptureError::Closed.message(), "capture source closed");
}
