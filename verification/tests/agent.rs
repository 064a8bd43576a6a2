use joy::audio::AudioChunk;
use joy::error::MediaError;
use joy::probe::{
    audio_detail, parse_args, summarize_video_caps, verdict, video_detail, StreamStats,
};
use joy::serve::{describe_encoder_exit, serve_result, EncoderExit, ServeEvent};
use joy::text::{decimal_text, parse_u32, parse_u64};
use joy::time::Timestamp;
use joy::video::{PixelFormat, VideoCaps, VideoMode};
use std::sync::Arc;
use std::time::Duration;

fn args(list: &[&str]) -> Vec<String> {
    list.iter().map(|s| s.to_string()).collect()
}

fn at(ms: u64) -> Timestamp {
    Timestamp::from_offset(Duration::from_millis(ms))
}

fn stats(label: &str, times: &[u64]) -> StreamStats {
    let mut stats = StreamStats::new(label);
    for ms in times {
        stats.on_received(at(*ms));
    }
    stats
}

#[test]
fn no_arguments_probe_hardware_for_five_seconds() {
    let options = parse_args(&[]).expect("options");
    assert!(!options.simulate);
    assert!(!options.serve);
    assert_eq!(options.duration, Duration::from_secs(5));
}

#[test]
fn arguments_are_taken_in_order() {
    let options = parse_args(&args(&["--serve", "--simulate"])).expect("options");
    assert!(options.simulate && options.serve);
    let options = parse_args(&args(&["--duration", "7", "--simulate", "--duration", "+09"]))
        .expect("options");
    assert!(options.simulate && !options.serve);
    assert_eq!(options.duration, Duration::from_secs(9));
}

#[test]
fn bad_arguments_are_explained() {
    let refusal = |list: &[&str]| parse_args(&args(list)).unwrap_err();
    assert_eq!(refusal(&["--duration"]), "--duration requires a value");
    assert_eq!(refusal(&["--duration", "soon"]), "invalid --duration value: soon");
    assert_eq!(
        refusal(&["--duration", "18446744073709551616"]),
        "invalid --duration value: 18446744073709551616"
    );
    assert_eq!(refusal(&["--fast", "--duration"]), "unknown argument: --fast");
    let usage = "usage: joy-agentd [--simulate] [--duration <secs>]";
    assert_eq!(refusal(&["--help"]), usage);
    assert_eq!(refusal(&["--simulate", "-h"]), usage);
}

#[test]
fn capability_summaries_are_short() {
    let mode = VideoMode { width: 1280, height: 720, fps: 15, format: PixelFormat::Mjpeg };
    let summary = |n: usize| summarize_video_caps(&VideoCaps { modes: vec![mode; n] });
    assert_eq!(summary(0), "");
    assert_eq!(summary(1), "1280x720@15 Mjpeg");
    assert_eq!(summary(2), "1280x720@15 Mjpeg, 1280x720@15 Mjpeg");
    assert_eq!(summary(4).matches("1280").count(), 4);
    assert!(!summary(4).contains("total"));
    assert_eq!(summary(12), format!("{} … (12 total)", summary(4)));
}

#[test]
fn streams_are_monotonic_when_times_increase_strictly() {
    let steady = stats("video", &[1, 2, 5]);
    assert!(steady.is_monotonic());
    assert_eq!(steady.count(), 3);
    assert!(!stats("video", &[1, 2, 2]).is_monotonic());
    assert!(!stats("video", &[3, 2, 5, 6]).is_monotonic());
    assert!(stats("video", &[]).is_monotonic());
}

#[test]
fn reports_hold_counters_and_detail() {
    let mut video = stats("video", &[0, 40, 80]);
    video.on_lagged(2);
    video.on_lagged(3);
    assert_eq!(video.lagged(), 5);
    assert_eq!(video.span(), Some((Duration::from_millis(80), 2)));
    assert_eq!(StreamStats::new("video").span(), None);
    video.set_detail(video_detail(64, 48, PixelFormat::Rgb24, "25.0"));
    assert_eq!(
        video.report(),
        "video: 3 received, 5 dropped to lag, timestamps monotonic; 64x48 Rgb24, 25.0 fps measured"
    );
    let mut audio = stats("audio", &[5, 4]);
    audio.set_detail(audio_detail(48_000, 1, 1_920, "0.177"));
    assert_eq!(
        audio.report(),
        "audio: 2 received, 0 dropped to lag, timestamps REGRESSED; 48000 Hz × 1 ch, 1920 frames total, peak RMS 0.177"
    );
}

#[test]
fn sample_frames_are_totalled() {
    let mut audio = StreamStats::new("audio");
    for (ms, channels, samples) in [(0, 2, 1_920), (20, 1, 960), (40, 0, 7)] {
        audio.on_chunk(&AudioChunk {
            ts: at(ms),
            sample_rate: 48_000,
            channels,
            samples: Arc::from(vec![0i16; samples]),
        });
    }
    assert_eq!(audio.frames(), 960 + 960 + 7);
    assert_eq!(audio.count(), 3);
    assert!(audio.is_monotonic());
    assert_eq!(audio.span(), Some((Duration::from_millis(40), 2)));
    assert_eq!(stats("video", &[1, 2]).frames(), 0);
}

#[test]
fn only_a_clean_stop_is_a_success() {
    assert_eq!(serve_result(ServeEvent::Stopped), Ok(()));
    assert_eq!(
        serve_result(ServeEvent::ServerFailed("address in use".into())),
        Err("http server: address in use".into())
    );
    assert_eq!(
        serve_result(ServeEvent::VideoEnded(EncoderExit::SourceClosed)),
        Err("video capture source closed unexpectedly".into())
    );
    assert_eq!(
        serve_result(ServeEvent::AudioEnded(EncoderExit::Failed(MediaError::Closed))),
        Err("audio encoder failed: media source closed".into())
    );
    assert_eq!(
        serve_result(ServeEvent::VideoEnded(EncoderExit::Panicked("gone".into()))),
        Err("video encoder task panicked: gone".into())
    );
}

#[test]
fn probes_need_two_healthy_streams() {
    let healthy = stats("x", &[1, 2]);
    let silent = stats("x", &[]);
    let regressed = stats("x", &[2, 1]);
    assert_eq!(verdict(&healthy, &healthy), Ok(()));
    assert_eq!(verdict(&silent, &silent), Err("no video frames received".into()));
    assert_eq!(verdict(&regressed, &silent), Err("no audio chunks received".into()));
    let message = "timestamps regressed — time discipline violated";
    assert_eq!(verdict(&regressed, &healthy), Err(message.into()));
    assert_eq!(verdict(&healthy, &regressed), Err(message.into()));
}

#[test]
fn encoder_exits_are_described() {
    assert_eq!(
        describe_encoder_exit("video", &EncoderExit::SourceClosed),
        "video capture source closed unexpectedly"
    );
    assert_eq!(
        describe_encoder_exit("audio", &EncoderExit::Failed(MediaError::Encode("bad".into()))),
        "audio encoder failed: encoder error: bad"
    );
    assert_eq!(
        describe_encoder_exit("audio", &EncoderExit::Panicked("task 7 panicked".into())),
        "audio encoder task panicked: task 7 panicked"
    );
}

#[test]
fn media_errors_have_their_messages() {
    assert_eq!(MediaError::Convert("x".into()).message(), "pixel conversion failed: x");
    assert_eq!(MediaError::Encode("x".into()).message(), "encoder error: x");
    assert_eq!(MediaError::Signaling("x".into()).message(), "signaling error: x");
    assert_eq!(MediaError::Peer("x".into()).message(), "webrtc error: x");
    assert_eq!(MediaError::Closed.message(), "media source closed");
}

#[test]
fn numbers_are_written_and_read_in_decimal() {
    for n in [0u64, 9, 10, 99, 100, 12_345, u64::MAX] {
        assert_eq!(decimal_text(n as u128), n.to_string());
        assert_eq!(parse_u64(&n.to_string()), Some(n));
    }
    assert_eq!(decimal_text(u128::MAX), u128::MAX.to_string());
    assert_eq!(parse_u64("007"), Some(7));
    assert_eq!(parse_u64("+"), None);
    assert_eq!(parse_u64("++1"), None);
    assert_eq!(parse_u64("1_000"), None);
    assert_eq!(parse_u64("٣"), None);
    assert_eq!(parse_u64(""), None);
    assert_eq!(parse_u32("4294967295"), Some(u32::MAX));
    assert_eq!(parse_u32("4294967296"), None);
}
