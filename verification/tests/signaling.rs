use joy::error::MediaError;
use joy::pump::{on_delivered, on_inbound, on_outbound, on_queued, on_sent, PumpAction, SocketFrame};
use joy::session::{PeerState, Session, SessionAction};
use joy::signaling::{SignalMessage, PROTOCOL_VERSION};

fn offer(v: u32) -> SignalMessage {
    SignalMessage::Offer { v, sdp: "v=0\r\n".into() }
}

fn candidate() -> SignalMessage {
    SignalMessage::Candidate {
        v: 1,
        candidate: "candidate:1 1 UDP 2122252543 192.168.1.2 50000 typ host".into(),
        sdp_mid: Some("0".into()),
        sdp_mline_index: Some(0),
    }
}

/// The text of a string field on the wire.
fn field(json: &str, key: &str) -> Option<String> {
    let value: serde_json::Value = serde_json::from_str(json).expect("valid json");
    value.get(key).and_then(|v| v.as_str()).map(|s| s.to_owned())
}

/// The code, message and error of a refusal.
fn refused(action: SessionAction) -> (String, String, String) {
    match action {
        SessionAction::Refuse {
            reply: SignalMessage::Error { v, code, message },
            error: MediaError::Signaling(detail),
        } => {
            assert_eq!(v, PROTOCOL_VERSION);
            (code, message, detail)
        }
        other => panic!("not refused: {other:?}"),
    }
}

#[test]
fn offer_wire_shape() {
    let msg = SignalMessage::Offer {
        v: 1,
        sdp: "v=0\r\n".into(),
    };
    let json = msg.to_json();
    assert_eq!(json, r#"{"type":"offer","v":1,"sdp":"v=0\r\n"}"#);
    let back: serde_json::Value = serde_json::from_str(&json).expect("deserialize");
    assert_eq!(back["type"], "offer");
    assert_eq!(back["v"], 1);
    assert_eq!(back["sdp"], "v=0\r\n");
}

#[test]
fn answer_wire_shape() {
    let msg = SignalMessage::Answer {
        v: 1,
        sdp: "v=0\r\n".into(),
    };
    assert_eq!(msg.to_json(), r#"{"type":"answer","v":1,"sdp":"v=0\r\n"}"#);
}

#[test]
fn error_wire_shape() {
    let msg = SignalMessage::error("bad_version", "agent speaks protocol v1");
    assert_eq!(
        msg.to_json(),
        r#"{"type":"error","v":1,"code":"bad_version","message":"agent speaks protocol v1"}"#
    );
}

#[test]
fn candidates_are_written_in_full() {
    assert_eq!(
        candidate().to_json(),
        r#"{"type":"candidate","v":1,"candidate":"candidate:1 1 UDP 2122252543 192.168.1.2 50000 typ host","sdp_mid":"0","sdp_mline_index":0}"#
    );
    let bare = SignalMessage::Candidate {
        v: 1,
        candidate: "candidate:...".into(),
        sdp_mid: None,
        sdp_mline_index: None,
    };
    assert_eq!(
        bare.to_json(),
        r#"{"type":"candidate","v":1,"candidate":"candidate:...","sdp_mid":null,"sdp_mline_index":null}"#
    );
}

#[test]
fn version_accessor_reads_every_variant() {
    let messages = [
        SignalMessage::Offer {
            v: 3,
            sdp: String::new(),
        },
        SignalMessage::Answer {
            v: 3,
            sdp: String::new(),
        },
        SignalMessage::Candidate {
            v: 3,
            candidate: String::new(),
            sdp_mid: None,
            sdp_mline_index: None,
        },
        SignalMessage::Error {
            v: 3,
            code: String::new(),
            message: String::new(),
        },
    ];
    assert!(messages.iter().all(|m| m.version() == 3));
}

#[test]
fn every_character_survives_the_wire() {
    let mut text = String::new();
    for code in 0..0x200u32 {
        text.extend(char::from_u32(code));
    }
    text.push_str("\u{2028}\u{fffd}\u{1f476}\"\\/");
    let json = SignalMessage::Offer { v: 1, sdp: text.clone() }.to_json();
    assert_eq!(field(&json, "sdp"), Some(text));
    assert!(json.contains(r"\u0000\u0001"));
    assert!(json.contains(r"\u0007\b\t\n\u000b\f\r\u000e"));
    assert!(json.contains(r"\u001f !\"));
    assert!(json.contains("\u{7f}\u{80}"));
}

#[test]
fn different_messages_have_different_wire_texts() {
    let texts = [
        offer(1).to_json(),
        offer(10).to_json(),
        SignalMessage::Answer { v: 1, sdp: "v=0\r\n".into() }.to_json(),
        SignalMessage::error("a\",\"message\":\"b", "").to_json(),
        SignalMessage::error("a", "b\",\"message\":\"").to_json(),
        candidate().to_json(),
    ];
    for i in 0..texts.len() {
        for j in 0..i {
            assert_ne!(texts[i], texts[j]);
        }
    }
}

#[test]
fn a_session_answers_one_offer() {
    let mut session = Session::new();
    match session.on_message(Some(offer(1))) {
        SessionAction::Negotiate { offer } => assert_eq!(offer, "v=0\r\n"),
        other => panic!("not negotiated: {other:?}"),
    }
    match session.on_negotiated(Ok("answer".into())) {
        SessionAction::Send { message: SignalMessage::Answer { v, sdp } } => {
            assert_eq!(v, 1);
            assert_eq!(sdp, "answer");
        }
        other => panic!("not sent: {other:?}"),
    }
    assert!(matches!(session.on_sent(true), SessionAction::Continue));
    let (code, message, detail) = refused(session.on_message(Some(offer(1))));
    assert_eq!(code, "renegotiation_unsupported");
    assert_eq!(message, "one offer per session");
    assert_eq!(detail, "second offer");
}

#[test]
fn a_failed_negotiation_ends_the_session() {
    let mut session = Session::new();
    assert!(matches!(session.on_message(Some(offer(1))), SessionAction::Negotiate { .. }));
    match session.on_negotiated(Err(MediaError::Peer("no route".into()))) {
        SessionAction::Fail { error } => assert_eq!(error.message(), "webrtc error: no route"),
        other => panic!("not failed: {other:?}"),
    }
    assert!(matches!(session.on_sent(false), SessionAction::Finish));
}

#[test]
fn other_versions_are_refused() {
    for message in [
        offer(2),
        SignalMessage::Answer { v: 2, sdp: String::new() },
        SignalMessage::Error { v: 2, code: String::new(), message: String::new() },
    ] {
        let mut session = Session::new();
        let (code, message, detail) = refused(session.on_message(Some(message)));
        assert_eq!(code, "bad_version");
        assert_eq!(message, "agent speaks protocol v1");
        assert_eq!(detail, "client protocol v2");
    }
}

#[test]
fn agent_only_messages_are_refused() {
    for message in [
        SignalMessage::Answer { v: 1, sdp: String::new() },
        SignalMessage::error("x", "y"),
    ] {
        let mut session = Session::new();
        let (code, message, detail) = refused(session.on_message(Some(message)));
        assert_eq!(code, "bad_message");
        assert_eq!(message, "unexpected message direction");
        assert_eq!(detail, "client sent agent-only message");
    }
}

#[test]
fn candidates_are_taken_before_and_after_the_offer() {
    let mut session = Session::new();
    for _ in 0..2 {
        match session.on_message(Some(candidate())) {
            SessionAction::AddCandidate { candidate, sdp_mid, sdp_mline_index } => {
                assert!(candidate.starts_with("candidate:1"));
                assert_eq!(sdp_mid.as_deref(), Some("0"));
                assert_eq!(sdp_mline_index, Some(0));
            }
            other => panic!("not taken: {other:?}"),
        }
    }
    assert!(matches!(session.on_message(Some(offer(1))), SessionAction::Negotiate { .. }));
    assert!(matches!(session.on_message(Some(candidate())), SessionAction::AddCandidate { .. }));
    assert!(matches!(session.on_message(None), SessionAction::Finish));
}

#[test]
fn connection_states_steer_the_session() {
    let session = Session::new();
    assert!(matches!(
        session.on_state(Some(PeerState::Connected)),
        SessionAction::RequestKeyframe
    ));
    assert!(matches!(session.on_state(Some(PeerState::Failed)), SessionAction::Finish));
    assert!(matches!(session.on_state(Some(PeerState::Closed)), SessionAction::Finish));
    for state in [
        PeerState::New,
        PeerState::Connecting,
        PeerState::Disconnected,
        PeerState::Unspecified,
    ] {
        assert!(matches!(session.on_state(Some(state)), SessionAction::Continue));
    }
    assert!(matches!(session.on_state(None), SessionAction::Continue));
}

/// What a session's client is sent, and how the session ends.
fn play(
    messages: Vec<Option<SignalMessage>>,
    outcome: Result<String, MediaError>,
) -> (Vec<SignalMessage>, Option<Result<(), String>>) {
    let mut session = Session::new();
    let mut sent = Vec::new();
    let mut outcome = Some(outcome);
    for message in messages {
        let mut action = session.on_message(message);
        loop {
            action = match action {
                SessionAction::Negotiate { .. } => {
                    session.on_negotiated(outcome.take().expect("one negotiation"))
                }
                SessionAction::Send { message } => {
                    sent.push(message);
                    session.on_sent(true)
                }
                SessionAction::Refuse { reply, error } => {
                    sent.push(reply);
                    return (sent, Some(Err(error.message())));
                }
                SessionAction::Fail { error } => return (sent, Some(Err(error.message()))),
                SessionAction::Finish => return (sent, Some(Ok(()))),
                _ => break,
            };
        }
        match session.on_state(Some(PeerState::Connected)) {
            SessionAction::RequestKeyframe => {}
            other => panic!("no keyframe: {other:?}"),
        }
    }
    (sent, None)
}

#[test]
fn a_client_is_sent_an_answer_and_then_an_error() {
    let answer = SignalMessage::Answer { v: 1, sdp: "ok".into() };
    let (sent, result) = play(
        vec![Some(candidate()), Some(offer(1)), Some(candidate()), Some(offer(1)), None],
        Ok("ok".into()),
    );
    assert_eq!(sent.len(), 2);
    assert_eq!(sent[0], answer);
    assert_eq!(
        sent[1],
        SignalMessage::error("renegotiation_unsupported", "one offer per session")
    );
    assert_eq!(result, Some(Err("signaling error: second offer".into())));

    let (sent, result) = play(vec![Some(offer(1)), None, Some(offer(1))], Ok("ok".into()));
    assert_eq!(sent, vec![answer]);
    assert_eq!(result, Some(Ok(())));

    let (sent, result) =
        play(vec![Some(offer(1)), Some(offer(1))], Err(MediaError::Peer("no route".into())));
    assert!(sent.is_empty());
    assert_eq!(result, Some(Err("webrtc error: no route".into())));

    let (sent, result) = play(vec![Some(offer(3)), Some(offer(1))], Ok("ok".into()));
    assert_eq!(sent, vec![SignalMessage::error("bad_version", "agent speaks protocol v1")]);
    assert_eq!(result, Some(Err("signaling error: client protocol v3".into())));
}

#[test]
fn undecodable_frames_are_answered_and_closed() {
    match on_inbound(Some(SocketFrame::Text(None))) {
        PumpAction::SendAndClose(json) => assert_eq!(
            json,
            r#"{"type":"error","v":1,"code":"bad_message","message":"frame is not a valid signaling message"}"#
        ),
        other => panic!("not refused: {other:?}"),
    }
}

#[test]
fn the_socket_is_bridged_both_ways() {
    match on_outbound(Some(offer(1))) {
        PumpAction::Send(json) => assert_eq!(json, offer(1).to_json()),
        other => panic!("not sent: {other:?}"),
    }
    match on_inbound(Some(SocketFrame::Text(Some(offer(1))))) {
        PumpAction::Deliver(message) => assert_eq!(message, offer(1)),
        other => panic!("not delivered: {other:?}"),
    }
    assert!(matches!(on_inbound(Some(SocketFrame::Other)), PumpAction::Continue));
    assert!(matches!(on_inbound(Some(SocketFrame::Close)), PumpAction::Stop));
    assert!(matches!(on_inbound(None), PumpAction::Stop));
    assert!(matches!(on_outbound(None), PumpAction::Close));
    assert!(matches!(on_queued(true), PumpAction::Continue));
    assert!(matches!(on_queued(false), PumpAction::Close));
    assert!(matches!(on_sent(true), PumpAction::Continue));
    assert!(matches!(on_sent(false), PumpAction::Stop));
    assert!(matches!(on_delivered(true), PumpAction::Continue));
    assert!(matches!(on_delivered(false), PumpAction::Close));
}
