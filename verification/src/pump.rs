//! The bridge between one WebSocket and one signaling session.
//!
//! Inbound text frames are signaling messages; an undecodable one is a protocol
//! violation that earns the client a `bad_message` error and a close. Frames
//! that are neither text nor close are ignored.
use crate::signaling::{SignalMessage, SignalView};
use vstd::prelude::*;

verus! {

/// Capacity of each per-session message channel.
pub const SESSION_CHANNEL_CAPACITY: usize = 32;

/// Capacity of the queue of sessions waiting to be accepted.
pub const ACCEPT_QUEUE_CAPACITY: usize = 16;

/// A frame that arrived on the socket.
#[derive(Debug)]
pub enum SocketFrame {
    /// A text frame: the message it decodes to, or `None` if it does not.
    Text(Option<SignalMessage>),
    /// The client closes the connection.
    Close,
    /// Binary, ping or pong.
    Other,
}

/// What the bridge does next.
#[derive(Debug)]
pub enum PumpAction {
    /// Go on.
    Continue,
    /// Hand the message to the session.
    Deliver(SignalMessage),
    /// Write this text to the socket.
    Send(String),
    /// Write this text to the socket, close it, and stop.
    SendAndClose(String),
    /// Close the socket and stop.
    Close,
    /// Stop.
    Stop,
}

/// What the bridge does next, with its texts as character sequences.
#[verifier::ext_equal]
pub enum PumpView {
    Continue,
    Deliver(SignalMessage),
    Send(Seq<char>),
    SendAndClose(Seq<char>),
    Close,
    Stop,
}

impl View for PumpAction {
    type V = PumpView;

    open spec fn view(&self) -> PumpView {
        match *self {
            PumpAction::Continue => PumpView::Continue,
            PumpAction::Deliver(message) => PumpView::Deliver(message),
            PumpAction::Send(text) => PumpView::Send(text@),
            PumpAction::SendAndClose(text) => PumpView::SendAndClose(text@),
            PumpAction::Close => PumpView::Close,
            PumpAction::Stop => PumpView::Stop,
        }
    }
}

/// The text sent for an undecodable frame.
pub open spec fn undecodable_reply() -> Seq<char> {
    crate::signaling::wire_text(
        SignalView::error("bad_message"@, "frame is not a valid signaling message"@),
    )
}

/// The new session was queued for the peer manager, or the peer manager is
/// gone and the client is refused.
pub fn on_queued(queued: bool) -> (action: PumpAction)
    ensures
        action == (if queued {
            PumpAction::Continue
        } else {
            PumpAction::Close
        }),
{
    if queued {
        PumpAction::Continue
    } else {
        PumpAction::Close
    }
}

/// The session has a message for the client, or was dropped (`None`).
pub fn on_outbound(outbound: Option<SignalMessage>) -> (action: PumpAction)
    ensures
        match outbound {
            Some(message) => action@ == PumpView::Send(crate::signaling::wire_text(message@)),
            None => action@ == PumpView::Close,
        },
{
    match outbound {
        Some(message) => PumpAction::Send(message.to_json()),
        None => PumpAction::Close,
    }
}

/// The text was written to the socket, or the socket is gone.
pub fn on_sent(sent: bool) -> (action: PumpAction)
    ensures
        action == (if sent {
            PumpAction::Continue
        } else {
            PumpAction::Stop
        }),
{
    if sent {
        PumpAction::Continue
    } else {
        PumpAction::Stop
    }
}

/// How the bridge reacts to a frame.
pub open spec fn frame_action(frame: SocketFrame) -> PumpView {
    match frame {
        SocketFrame::Close => PumpView::Stop,
        SocketFrame::Other => PumpView::Continue,
        SocketFrame::Text(Some(message)) => PumpView::Deliver(message),
        SocketFrame::Text(None) => PumpView::SendAndClose(undecodable_reply()),
    }
}

/// A frame arrived, or the socket closed or failed (`None`).
pub fn on_inbound(inbound: Option<SocketFrame>) -> (action: PumpAction)
    ensures
        action@ == (match inbound {
            Some(frame) => frame_action(frame),
            None => PumpView::Stop,
        }),
{
    match inbound {
        None => PumpAction::Stop,
        Some(SocketFrame::Close) => PumpAction::Stop,
        Some(SocketFrame::Other) => PumpAction::Continue,
        Some(SocketFrame::Text(Some(message))) => PumpAction::Deliver(message),
        Some(SocketFrame::Text(None)) => {
            let error = SignalMessage::error(
                "bad_message",
                "frame is not a valid signaling message",
            );
            PumpAction::SendAndClose(error.to_json())
        },
    }
}

/// The message was handed to the session, or the session is gone.
pub fn on_delivered(delivered: bool) -> (action: PumpAction)
    ensures
        action == (if delivered {
            PumpAction::Continue
        } else {
            PumpAction::Close
        }),
{
    if delivered {
        PumpAction::Continue
    } else {
        PumpAction::Close
    }
}

/// The messages that a run of frames hands to the session, which takes them all.
pub open spec fn delivered(frames: Seq<SocketFrame>) -> Seq<SignalMessage>
    decreases frames.len(),
{
    if frames.len() == 0 {
        Seq::empty()
    } else {
        match frame_action(frames[0]) {
            PumpView::Deliver(message) => seq![message] + delivered(frames.drop_first()),
            PumpView::Continue => delivered(frames.drop_first()),
            _ => Seq::empty(),
        }
    }
}

/// Whether a frame ends the bridge.
pub open spec fn ends_bridge(frame: SocketFrame) -> bool {
    let action = frame_action(frame);
    action is SendAndClose || action is Close || action is Stop
}

/// Nothing that follows a close or an undecodable frame reaches the session.
pub proof fn law_nothing_follows_the_end(frames: Seq<SocketFrame>, i: int, more: Seq<SocketFrame>)
    requires
        0 <= i < frames.len(),
        ends_bridge(frames[i]),
    ensures
        delivered(frames + more) == delivered(frames),
    decreases frames.len(),
{
    let all = frames + more;
    assert(all[0] == frames[0]);
    assert(all.drop_first() =~= frames.drop_first() + more);
    if i > 0 && !ends_bridge(frames[0]) {
        law_nothing_follows_the_end(frames.drop_first(), i - 1, more);
    }
}

/// Messages reach the session in the order in which they arrived.
pub proof fn law_messages_arrive_in_order(messages: Seq<SignalMessage>)
    ensures
        delivered(messages.map_values(|m: SignalMessage| SocketFrame::Text(Some(m)))) == messages,
    decreases messages.len(),
{
    let frames = messages.map_values(|m: SignalMessage| SocketFrame::Text(Some(m)));
    if messages.len() > 0 {
        let rest = messages.drop_first();
        assert(frames.drop_first() =~= rest.map_values(
            |m: SignalMessage| SocketFrame::Text(Some(m)),
        ));
        law_messages_arrive_in_order(rest);
        assert(seq![messages[0]] + rest =~= messages);
    }
}

/// A frame that is neither text nor close makes no difference.
pub proof fn law_other_frames_are_ignored(before: Seq<SocketFrame>, after: Seq<SocketFrame>)
    ensures
        delivered(before + seq![SocketFrame::Other] + after) == delivered(before + after),
    decreases before.len(),
{
    let with = before + seq![SocketFrame::Other] + after;
    let without = before + after;
    if before.len() == 0 {
        assert(with.drop_first() =~= without);
    } else {
        let rest = before.drop_first();
        assert(with.drop_first() =~= rest + seq![SocketFrame::Other] + after);
        assert(without.drop_first() =~= rest + after);
        law_other_frames_are_ignored(rest, after);
    }
}

/// A message goes to the session as it is, and a frame that is none is answered
/// with a `bad_message` error at the agent's version, which ends the bridge. A
/// close ends it without an answer; other frames change nothing.
pub proof fn law_reactions_to_frames(message: SignalMessage)
    ensures
        frame_action(SocketFrame::Text(Some(message))) == PumpView::Deliver(message),
        frame_action(SocketFrame::Text(None)) == PumpView::SendAndClose(
            crate::signaling::wire_text(
                SignalView::Error {
                    v: 1,
                    code: "bad_message"@,
                    message: "frame is not a valid signaling message"@,
                },
            ),
        ),
        frame_action(SocketFrame::Close) == PumpView::Stop,
        frame_action(SocketFrame::Other) == PumpView::Continue,
        ends_bridge(SocketFrame::Close),
        ends_bridge(SocketFrame::Text(None)),
        !ends_bridge(SocketFrame::Text(Some(message))),
        !ends_bridge(SocketFrame::Other),
{
}

/// What the session gets are the messages up to the first close or undecodable
/// frame, in order.
pub proof fn law_delivery_stops_at_the_end(
    messages: Seq<SignalMessage>,
    last: SocketFrame,
    more: Seq<SocketFrame>,
)
    requires
        last is Close || last == SocketFrame::Text(None),
    ensures
        delivered(
            messages.map_values(|m: SignalMessage| SocketFrame::Text(Some(m))) + seq![last] + more,
        ) == messages,
    decreases messages.len(),
{
    let frames = messages.map_values(|m: SignalMessage| SocketFrame::Text(Some(m)));
    let all = frames + seq![last] + more;
    if messages.len() == 0 {
        assert(all[0] == last);
        assert(messages =~= Seq::empty());
    } else {
        let rest = messages.drop_first();
        assert(all[0] == SocketFrame::Text(Some(messages[0])));
        assert(all.drop_first() =~= rest.map_values(
            |m: SignalMessage| SocketFrame::Text(Some(m)),
        ) + seq![last] + more);
        law_delivery_stops_at_the_end(rest, last, more);
        assert(seq![messages[0]] + rest =~= messages);
    }
}

/// An action is seen as it is, its text in full.
pub proof fn law_actions_are_seen_as_they_are(line: String, message: SignalMessage)
    ensures
        PumpAction::Continue@ is Continue,
        PumpAction::Deliver(message)@ == PumpView::Deliver(message),
        PumpAction::Send(line)@ == PumpView::Send(line@),
        PumpAction::SendAndClose(line)@ == PumpView::SendAndClose(line@),
        PumpAction::Close@ is Close,
        PumpAction::Stop@ is Stop,
{
}

} // verus!
