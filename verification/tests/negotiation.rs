use joy::codec::MediaKind;
use joy::error::MediaError;
use joy::negotiation::{gathered_answer, parsed_offer, read_offer, PeerStep};
use joy::session::{Session, SessionAction};
use joy::signaling::{SignalMessage, PROTOCOL_VERSION};
use webrtc::peer_connection::sdp::sdp_type::RTCSdpType;

const OFFER: &str = "v=0\r\no=- 1 2 IN IP4 127.0.0.1\r\ns=-\r\nt=0 0\r\n";

#[test]
fn well_formed_offers_are_read() {
    let offer = read_offer(OFFER.to_owned()).expect("read");
    assert_eq!(offer.sdp, OFFER);
    assert_eq!(offer.sdp_type, RTCSdpType::Offer);
    assert_eq!(offer.unmarshal().expect("parse").origin.session_version, 2);
    let media = format!("{OFFER}m=video 9 UDP/TLS/RTP/SAVPF 102\r\na=recvonly\r\n");
    assert_eq!(read_offer(media.clone()).expect("read").sdp, media);
}

#[test]
fn malformed_offers_are_signaling_errors() {
    for (sdp, detail) in [
        ("", "bad offer sdp: SdpInvalidSyntax: "),
        ("not sdp", "bad offer sdp: SdpInvalidSyntax: not sdp"),
        ("v=1\r\n", "bad offer sdp: SdpInvalidSyntax: 1"),
        ("v=0\r\no=- 1 2\r\n", "bad offer sdp: SdpInvalidSyntax: `o=- 1 2`"),
        ("v=0\r\no=- 1 2 XX IP4 ::\r\n", "bad offer sdp: SdpInvalidValue: XX"),
    ] {
        match read_offer(sdp.to_owned()) {
            Err(MediaError::Signaling(m)) => assert_eq!(m, detail),
            other => panic!("not refused: {other:?}"),
        }
    }
}

#[test]
fn parse_results_are_passed_on() {
    let offer = read_offer(OFFER.to_owned()).expect("read");
    assert_eq!(parsed_offer(Ok(offer)).expect("kept").sdp, OFFER);
    match parsed_offer(Err("no version".to_owned())) {
        Err(e) => assert_eq!(e.message(), "signaling error: bad offer sdp: no version"),
        Ok(offer) => panic!("not refused: {offer:?}"),
    }
}

#[test]
fn malformed_offers_end_the_session() {
    let mut session = Session::new();
    let sdp = "v=7".to_owned();
    let offer = match session.on_message(Some(SignalMessage::Offer { v: PROTOCOL_VERSION, sdp })) {
        SessionAction::Negotiate { offer } => offer,
        other => panic!("not negotiated: {other:?}"),
    };
    match session.on_negotiated(read_offer(offer).map(|offer| offer.sdp)) {
        SessionAction::Fail { error } => {
            assert_eq!(error.message(), "signaling error: bad offer sdp: SdpInvalidSyntax: 7")
        }
        other => panic!("not ended: {other:?}"),
    }
}

#[test]
fn peer_failures_name_the_step() {
    for (step, text) in [
        (PeerStep::Codec(MediaKind::Video), "webrtc error: register h264: why"),
        (PeerStep::Codec(MediaKind::Audio), "webrtc error: register opus: why"),
        (PeerStep::Interceptors, "webrtc error: register interceptors: why"),
        (PeerStep::Connection, "webrtc error: peer connection: why"),
        (PeerStep::Track, "webrtc error: add track: why"),
        (PeerStep::RemoteDescription, "webrtc error: set remote description: why"),
        (PeerStep::Answer, "webrtc error: create answer: why"),
        (PeerStep::LocalDescription, "webrtc error: set local description: why"),
    ] {
        assert_eq!(step.error("why").message(), text);
    }
}

#[test]
fn the_answer_is_the_gathered_description() {
    assert_eq!(gathered_answer(Some(OFFER.to_owned())).expect("answer"), OFFER);
    match gathered_answer(None) {
        Err(e) => assert_eq!(e.message(), "webrtc error: no local description after gathering"),
        Ok(sdp) => panic!("answered: {sdp}"),
    }
}
