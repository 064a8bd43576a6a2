//! Serve mode: what ends it, and how that is reported.
//!
//! A dying client session is that client's problem, but a dying encoder or a
//! closed capture source takes serve mode down: a loudly dead monitor beats a
//! silently degraded one.
use crate::error::MediaError;
use vstd::prelude::*;
use vstd::string::*;

verus! {

/// How an encoder came to an end.
#[derive(Debug)]
pub enum EncoderExit {
    /// Its capture source closed.
    SourceClosed,
    /// It failed.
    Failed(MediaError),
    /// Its task panicked or was cancelled.
    Panicked(String),
}

/// The report of an encoder's end.
pub open spec fn exit_text(kind: Seq<char>, exit: EncoderExit) -> Seq<char> {
    match exit {
        EncoderExit::SourceClosed => kind + " capture source closed unexpectedly"@,
        EncoderExit::Failed(e) => kind + " encoder failed: "@ + e.text(),
        EncoderExit::Panicked(detail) => kind + " encoder task panicked: "@ + detail@,
    }
}

/// Renders an encoder's early exit as a fatal error.
pub fn describe_encoder_exit(kind: &str, exit: &EncoderExit) -> (m: String)
    ensures
        m@ == exit_text(kind@, *exit),
{
    let mut m = kind.to_owned();
    match exit {
        EncoderExit::SourceClosed => {
            m.append(" capture source closed unexpectedly");
        },
        EncoderExit::Failed(e) => {
            m.append(" encoder failed: ");
            m.append(e.message().as_str());
        },
        EncoderExit::Panicked(detail) => {
            m.append(" encoder task panicked: ");
            m.append(detail.as_str());
        },
    }
    m
}

/// What ends serve mode.
#[derive(Debug)]
pub enum ServeEvent {
    /// The server stopped as it was told to.
    Stopped,
    /// The server failed.
    ServerFailed(String),
    /// The video encoder came to an end.
    VideoEnded(EncoderExit),
    /// The audio encoder came to an end.
    AudioEnded(EncoderExit),
}

/// What serve mode fails with, if it does.
pub open spec fn serve_failure(event: ServeEvent) -> Option<Seq<char>> {
    match event {
        ServeEvent::Stopped => None,
        ServeEvent::ServerFailed(detail) => Some("http server: "@ + detail@),
        ServeEvent::VideoEnded(exit) => Some(exit_text("video"@, exit)),
        ServeEvent::AudioEnded(exit) => Some(exit_text("audio"@, exit)),
    }
}

/// The result of serve mode. Only a server that stops as it was told to is a
/// success: in a healthy session the capture sources never close and the
/// encoders never fail, so the end of an encoder is fatal, whatever it was.
pub fn serve_result(event: ServeEvent) -> (r: Result<(), String>)
    ensures
        match serve_failure(event) {
            Some(failure) => r matches Err(m) && m@ == failure,
            None => r is Ok,
        },
        match event {
            ServeEvent::Stopped => r is Ok,
            ServeEvent::ServerFailed(detail) => r matches Err(m) && m@ == "http server: "@
                + detail@,
            ServeEvent::VideoEnded(exit) => r matches Err(m) && m@ == exit_text("video"@, exit),
            ServeEvent::AudioEnded(exit) => r matches Err(m) && m@ == exit_text("audio"@, exit),
        },
{
    match event {
        ServeEvent::Stopped => Ok(()),
        ServeEvent::ServerFailed(detail) => {
            let mut m = "http server: ".to_owned();
            m.append(detail.as_str());
            Err(m)
        },
        ServeEvent::VideoEnded(exit) => Err(describe_encoder_exit("video", &exit)),
        ServeEvent::AudioEnded(exit) => Err(describe_encoder_exit("audio", &exit)),
    }
}

/// The report of an encoder's end names the encoder first, and then what happened
/// to it, down to the detail.
pub proof fn law_exits_are_told_apart(kind: Seq<char>, error: MediaError, detail: String)
    ensures
        exit_text(kind, EncoderExit::SourceClosed) == kind
            + " capture source closed unexpectedly"@,
        exit_text(kind, EncoderExit::Failed(error)) == kind + " encoder failed: "@ + error.text(),
        exit_text(kind, EncoderExit::Panicked(detail)) == kind + " encoder task panicked: "@
            + detail@,
{
}

/// Serve mode succeeds only if it was told to stop; whatever else ends it is a
/// failure that names what ended.
pub proof fn law_only_a_stop_is_a_success(event: ServeEvent, exit: EncoderExit, detail: String)
    ensures
        serve_failure(event) is None <==> event is Stopped,
        serve_failure(ServeEvent::ServerFailed(detail)) == Some("http server: "@ + detail@),
        serve_failure(ServeEvent::VideoEnded(exit)) matches Some(failure) && "video"@.is_prefix_of(
            failure,
        ),
        serve_failure(ServeEvent::AudioEnded(exit)) matches Some(failure) && "audio"@.is_prefix_of(
            failure,
        ),
{
    assert("video"@.is_prefix_of(exit_text("video"@, exit))) by {
        assert(exit_text("video"@, exit).subrange(0, "video"@.len() as int) =~= "video"@);
    }
    assert("audio"@.is_prefix_of(exit_text("audio"@, exit))) by {
        assert(exit_text("audio"@, exit).subrange(0, "audio"@.len() as int) =~= "audio"@);
    }
}

} // verus!
