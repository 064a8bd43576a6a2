//! Negotiating with one client: reading its offer, and what is reported when a
//! step towards the answer fails.
//!
//! The WebRTC stack carries the steps out; each ends in success or in a complaint,
//! given as text.
use crate::codec::MediaKind;
use crate::error::{prefixed, MediaError};
use crate::session::{self, ActionView, SessionEvent};
use crate::signaling::SignalView;
use vstd::prelude::*;
use vstd::string::*;
use webrtc::peer_connection::sdp::session_description::RTCSessionDescription;

verus! {

/// A session description of the WebRTC stack: its text and what was read from
/// it.
#[verifier::external_type_specification]
#[verifier::external_body]
pub struct ExSessionDescription(RTCSessionDescription);

/// What `RTCSessionDescription::offer` makes of a text: the offer, or what it
/// has to say against the text.
pub uninterp spec fn offer_parsed(sdp: Seq<char>) -> Result<RTCSessionDescription, Seq<char>>;

/// Parses an offer by `RTCSessionDescription::offer` of the `webrtc` crate, whose
/// error is rendered as text. The result is named by [`offer_parsed`]: it depends
/// on the text alone. Which texts are well-formed offers is left unsaid.
#[verifier::external_body]
fn parse_offer(sdp: String) -> (r: Result<RTCSessionDescription, String>)
    ensures
        match r {
            Ok(offer) => offer_parsed(sdp@) == Ok::<RTCSessionDescription, Seq<char>>(offer),
            Err(complaint) => offer_parsed(sdp@) == Err::<RTCSessionDescription, Seq<char>>(
                complaint@,
            ),
        },
{
    RTCSessionDescription::offer(sdp).map_err(|e| e.to_string())
}

/// The detail of the error for an offer that cannot be parsed.
pub open spec fn offer_refusal(complaint: Seq<char>) -> Seq<char> {
    "bad offer sdp: "@ + complaint
}

/// The offer that was parsed; a complaint is the client's fault, hence a
/// signaling error.
pub fn parsed_offer(parsed: Result<RTCSessionDescription, String>) -> (r: Result<
    RTCSessionDescription,
    MediaError,
>)
    ensures
        match parsed {
            Ok(offer) => r == Ok::<RTCSessionDescription, MediaError>(offer),
            Err(complaint) => r matches Err(MediaError::Signaling(m)) && m@ == offer_refusal(
                complaint@,
            ) && m@ == "bad offer sdp: "@ + complaint@,
        },
{
    match parsed {
        Ok(offer) => Ok(offer),
        Err(complaint) => Err(
            MediaError::Signaling(prefixed("bad offer sdp: ", complaint.as_str())),
        ),
    }
}

/// Reads a client's offer.
pub fn read_offer(sdp: String) -> (r: Result<RTCSessionDescription, MediaError>)
    ensures
        match offer_parsed(sdp@) {
            Ok(offer) => r == Ok::<RTCSessionDescription, MediaError>(offer),
            Err(complaint) => r matches Err(MediaError::Signaling(m)) && m@ == offer_refusal(
                complaint,
            ) && m@ == "bad offer sdp: "@ + complaint,
        },
{
    parsed_offer(parse_offer(sdp))
}

/// What the WebRTC stack can fail at, from setting up to answering an offer.
#[derive(Debug, Clone, Copy, PartialEq, Eq, Structural)]
pub enum PeerStep {
    /// Registering the codec of this kind.
    Codec(MediaKind),
    /// Registering the interceptors.
    Interceptors,
    /// Creating a connection.
    Connection,
    /// Adding a media track.
    Track,
    /// Taking the client's description.
    RemoteDescription,
    /// Making an answer.
    Answer,
    /// Taking the agent's own description.
    LocalDescription,
}

impl PeerStep {
    /// How a failure at this step is introduced.
    pub open spec fn label(self) -> Seq<char> {
        match self {
            PeerStep::Codec(MediaKind::Video) => "register h264: "@,
            PeerStep::Codec(MediaKind::Audio) => "register opus: "@,
            PeerStep::Interceptors => "register interceptors: "@,
            PeerStep::Connection => "peer connection: "@,
            PeerStep::Track => "add track: "@,
            PeerStep::RemoteDescription => "set remote description: "@,
            PeerStep::Answer => "create answer: "@,
            PeerStep::LocalDescription => "set local description: "@,
        }
    }

    /// The error for a failure at this step.
    pub fn error(self, complaint: &str) -> (e: MediaError)
        ensures
            e matches MediaError::Peer(m) && m@ == self.label() + complaint@,
    {
        let label = match self {
            PeerStep::Codec(MediaKind::Video) => "register h264: ",
            PeerStep::Codec(MediaKind::Audio) => "register opus: ",
            PeerStep::Interceptors => "register interceptors: ",
            PeerStep::Connection => "peer connection: ",
            PeerStep::Track => "add track: ",
            PeerStep::RemoteDescription => "set remote description: ",
            PeerStep::Answer => "create answer: ",
            PeerStep::LocalDescription => "set local description: ",
        };
        MediaError::Peer(prefixed(label, complaint))
    }
}

/// The answer to send: the agent's own description once its candidates are
/// gathered, if the connection has one by then.
pub fn gathered_answer(local: Option<String>) -> (r: Result<String, MediaError>)
    ensures
        match local {
            Some(sdp) => r == Ok::<String, MediaError>(sdp),
            None => r matches Err(MediaError::Peer(m)) && m@
                == "no local description after gathering"@,
        },
{
    match local {
        Some(sdp) => Ok(sdp),
        None => Err(MediaError::Peer("no local description after gathering".to_owned())),
    }
}

/// A client whose first message is an offer that cannot be parsed gets no reply:
/// its session ends with the complaint.
pub proof fn law_malformed_offers_end_the_session(sdp: Seq<char>, complaint: Seq<char>)
    requires
        offer_parsed(sdp) == Err::<RTCSessionDescription, Seq<char>>(complaint),
    ensures
        ({
            let error = "signaling error: "@ + ("bad offer sdp: "@ + complaint);
            let actions = session::session_actions(
                seq![
                    SessionEvent::Inbound(
                        Some(SignalView::Offer { v: crate::signaling::PROTOCOL_VERSION, sdp }),
                    ),
                    SessionEvent::Negotiated(Err(error)),
                ],
            );
            &&& session::session_result(actions) == Some(Err::<(), Seq<char>>(error))
            &&& session::messages_sent(actions) == Seq::<SignalView>::empty()
        }),
{
    let error = "signaling error: "@ + offer_refusal(complaint);
    let taken = SessionEvent::Inbound(
        Some(SignalView::Offer { v: crate::signaling::PROTOCOL_VERSION, sdp }),
    );
    let failed = SessionEvent::Negotiated(Err(error));
    let negotiate = ActionView::Negotiate { offer: sdp };
    let fail = ActionView::Fail { error };
    let events = seq![taken, failed];
    assert(events.drop_first() =~= seq![failed]);
    assert(seq![failed].drop_first() =~= seq![]);
    reveal_with_fuel(session::actions_from, 3);
    let actions = session::session_actions(events);
    assert(actions =~= seq![negotiate, fail]);
    reveal_with_fuel(session::messages_sent, 3);
    assert(actions.drop_first() =~= seq![fail]);
    assert(seq![fail].drop_first() =~= seq![]);
    assert(session::messages_sent(actions) =~= seq![]);
}

/// A failing step is told by what was being done.
pub proof fn law_failing_steps_are_named(step: PeerStep)
    ensures
        step.label() == (match step {
            PeerStep::Codec(kind) => match kind {
                MediaKind::Video => "register h264: "@,
                MediaKind::Audio => "register opus: "@,
            },
            PeerStep::Interceptors => "register interceptors: "@,
            PeerStep::Connection => "peer connection: "@,
            PeerStep::Track => "add track: "@,
            PeerStep::RemoteDescription => "set remote description: "@,
            PeerStep::Answer => "create answer: "@,
            PeerStep::LocalDescription => "set local description: "@,
        }),
{
}

/// The complaint about an offer is passed on in full.
pub proof fn law_bad_offers_are_explained(complaint: Seq<char>)
    ensures
        offer_refusal(complaint) == "bad offer sdp: "@ + complaint,
{
}

} // verus!
