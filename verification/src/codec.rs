//! The codecs offered to clients: exactly the ones the encoders produce.
use vstd::prelude::*;
use vstd::string::*;

verus! {

/// The stream that both tracks belong to, so that clients group them and keep
/// audio and video in sync.
pub const STREAM_ID: &'static str = "joy";

/// What a track carries.
#[derive(Debug, Clone, Copy, PartialEq, Eq, Structural)]
pub enum MediaKind {
    Video,
    Audio,
}

/// How a codec is offered in the agent's session description, and the track
/// that carries it.
#[derive(Debug, Clone, PartialEq, Eq)]
pub struct CodecOffer {
    /// What the codec encodes.
    pub kind: MediaKind,
    /// The name the codec is registered under.
    pub mime_type: String,
    /// The identifier of the track, within the stream [`STREAM_ID`].
    pub track_id: String,
    /// The RTP payload type.
    pub payload_type: u8,
    /// The RTP clock rate in Hz.
    pub clock_rate: u32,
    /// Channels of the payload format; zero for video.
    pub channels: u16,
    /// The format parameters.
    pub sdp_fmtp_line: String,
}

/// A codec offer with its texts as character sequences.
#[verifier::ext_equal]
pub struct CodecView {
    pub kind: MediaKind,
    pub mime_type: Seq<char>,
    pub track_id: Seq<char>,
    pub payload_type: u8,
    pub clock_rate: u32,
    pub channels: u16,
    pub sdp_fmtp_line: Seq<char>,
}

impl View for CodecOffer {
    type V = CodecView;

    open spec fn view(&self) -> CodecView {
        CodecView {
            kind: self.kind,
            mime_type: self.mime_type@,
            track_id: self.track_id@,
            payload_type: self.payload_type,
            clock_rate: self.clock_rate,
            channels: self.channels,
            sdp_fmtp_line: self.sdp_fmtp_line@,
        }
    }
}

/// H.264, Constrained Baseline, packetization mode 1.
pub open spec fn h264() -> CodecView {
    CodecView {
        kind: MediaKind::Video,
        mime_type: "video/H264"@,
        track_id: "video"@,
        payload_type: 102,
        clock_rate: 90_000,
        channels: 0,
        sdp_fmtp_line: "level-asymmetry-allowed=1;packetization-mode=1;profile-level-id=42e01f"@,
    }
}

/// Opus, 48 kHz stereo payload format. The RTP clock of Opus is always 48 kHz;
/// the encoded channels are described by the packets themselves.
pub open spec fn opus() -> CodecView {
    CodecView {
        kind: MediaKind::Audio,
        mime_type: "audio/opus"@,
        track_id: "audio"@,
        payload_type: 111,
        clock_rate: 48_000,
        channels: 2,
        sdp_fmtp_line: "minptime=10;useinbandfec=1"@,
    }
}

/// The H.264 offer.
pub fn h264_offer() -> (offer: CodecOffer)
    ensures
        offer@ == h264(),
{
    CodecOffer {
        kind: MediaKind::Video,
        mime_type: "video/H264".to_owned(),
        track_id: "video".to_owned(),
        payload_type: 102,
        clock_rate: 90_000,
        channels: 0,
        sdp_fmtp_line:
            "level-asymmetry-allowed=1;packetization-mode=1;profile-level-id=42e01f".to_owned(),
    }
}

/// The Opus offer.
pub fn opus_offer() -> (offer: CodecOffer)
    ensures
        offer@ == opus(),
{
    CodecOffer {
        kind: MediaKind::Audio,
        mime_type: "audio/opus".to_owned(),
        track_id: "audio".to_owned(),
        payload_type: 111,
        clock_rate: 48_000,
        channels: 2,
        sdp_fmtp_line: "minptime=10;useinbandfec=1".to_owned(),
    }
}

/// Every codec to register, in order: what is not among them is never
/// negotiated.
pub fn offered_codecs() -> (offers: Vec<CodecOffer>)
    ensures
        offers@.len() == 2,
        offers@[0]@ == h264(),
        offers@[1]@ == opus(),
{
    let mut offers: Vec<CodecOffer> = Vec::new();
    offers.push(h264_offer());
    offers.push(opus_offer());
    offers
}

/// An offer is seen as it is: every text in full, every number as it stands.
pub proof fn law_offers_are_seen_as_they_are(offer: CodecOffer)
    ensures
        offer@.kind == offer.kind,
        offer@.mime_type == offer.mime_type@,
        offer@.track_id == offer.track_id@,
        offer@.payload_type == offer.payload_type,
        offer@.clock_rate == offer.clock_rate,
        offer@.channels == offer.channels,
        offer@.sdp_fmtp_line == offer.sdp_fmtp_line@,
{
}

} // verus!
