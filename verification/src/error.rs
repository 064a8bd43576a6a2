//! The error types of the capture layer and of the media plane.
//!
//! Failures reported by platform and codec libraries are carried as text:
//! callers have no meaningful way to match on such a library's own variants.
use vstd::prelude::*;
use vstd::string::*;

verus! {

/// The unified error type for opening and running capture sources.
#[derive(Debug)]
#[non_exhaustive]
pub enum CaptureError {
    /// The requested capture device does not exist or is not connected.
    DeviceNotFound(String),
    /// The device exists but cannot satisfy the requested configuration
    /// (resolution, frame rate, sample rate, channel count).
    UnsupportedConfig(String),
    /// A platform or backend library reported a failure while opening the
    /// device or during streaming.
    Backend(String),
    /// The source's background capture task has stopped and no more data will
    /// be produced.
    Closed,
}

/// The unified error type for pixel conversion, encoding, signaling and peer
/// management.
#[derive(Debug)]
#[non_exhaustive]
pub enum MediaError {
    /// A captured frame could not be converted to the encoder's input format.
    Convert(String),
    /// The video or audio encoder rejected its configuration or failed while
    /// encoding.
    Encode(String),
    /// A signaling message could not be exchanged with the client.
    Signaling(String),
    /// The WebRTC stack reported a failure while negotiating or running a peer
    /// connection.
    Peer(String),
    /// The upstream capture source has closed; no more media will arrive.
    Closed,
}

/// `prefix` followed by `detail`.
pub(crate) fn prefixed(prefix: &str, detail: &str) -> (s: String)
    ensures
        s@ == prefix@ + detail@,
{
    let mut s = prefix.to_owned();
    s.append(detail);
    s
}

impl CaptureError {
    /// The message shown for this error.
    pub open spec fn text(&self) -> Seq<char> {
        match self {
            CaptureError::DeviceNotFound(detail) => "capture device not found: "@ + detail@,
            CaptureError::UnsupportedConfig(detail) => "unsupported capture configuration: "@
                + detail@,
            CaptureError::Backend(detail) => "capture backend error: "@ + detail@,
            CaptureError::Closed => "capture source closed"@,
        }
    }

    /// Renders the message shown for this error.
    pub fn message(&self) -> (s: String)
        ensures
            s@ == self.text(),
    {
        match self {
            CaptureError::DeviceNotFound(detail) => prefixed("capture device not found: ", detail.as_str()),
            CaptureError::UnsupportedConfig(detail) => prefixed(
                "unsupported capture configuration: ",
                detail.as_str(),
            ),
            CaptureError::Backend(detail) => prefixed("capture backend error: ", detail.as_str()),
            CaptureError::Closed => "capture source closed".to_owned(),
        }
    }
}

impl MediaError {
    /// The message shown for this error.
    pub open spec fn text(&self) -> Seq<char> {
        match self {
            MediaError::Convert(detail) => "pixel conversion failed: "@ + detail@,
            MediaError::Encode(detail) => "encoder error: "@ + detail@,
            MediaError::Signaling(detail) => "signaling error: "@ + detail@,
            MediaError::Peer(detail) => "webrtc error: "@ + detail@,
            MediaError::Closed => "media source closed"@,
        }
    }

    /// Renders the message shown for this error.
    pub fn message(&self) -> (s: String)
        ensures
            s@ == self.text(),
    {
        match self {
            MediaError::Convert(detail) => prefixed("pixel conversion failed: ", detail.as_str()),
            MediaError::Encode(detail) => prefixed("encoder error: ", detail.as_str()),
            MediaError::Signaling(detail) => prefixed("signaling error: ", detail.as_str()),
            MediaError::Peer(detail) => prefixed("webrtc error: ", detail.as_str()),
            MediaError::Closed => "media source closed".to_owned(),
        }
    }
}

/// The message of a capture error is what kind of failure it is, and then the
/// detail as it was given.
pub proof fn law_capture_errors_tell_their_detail(detail: String)
    ensures
        CaptureError::DeviceNotFound(detail).text() == "capture device not found: "@ + detail@,
        CaptureError::UnsupportedConfig(detail).text() == "unsupported capture configuration: "@
            + detail@,
        CaptureError::Backend(detail).text() == "capture backend error: "@ + detail@,
        CaptureError::Closed.text() == "capture source closed"@,
{
}

/// The message of a media error is what kind of failure it is, and then the detail
/// as it was given.
pub proof fn law_media_errors_tell_their_detail(detail: String)
    ensures
        MediaError::Convert(detail).text() == "pixel conversion failed: "@ + detail@,
        MediaError::Encode(detail).text() == "encoder error: "@ + detail@,
        MediaError::Signaling(detail).text() == "signaling error: "@ + detail@,
        MediaError::Peer(detail).text() == "webrtc error: "@ + detail@,
        MediaError::Closed.text() == "media source closed"@,
{
}

} // verus!
