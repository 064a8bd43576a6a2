//! One client's media session, from offer to teardown.
//!
//! The session decides how to react to each signaling message and each change
//! of the peer connection's state; sending, negotiating and closing are the
//! caller's part, which reports the outcome back.
use crate::error::MediaError;
use crate::signaling::{SignalMessage, SignalView, PROTOCOL_VERSION};
use crate::text;
use vstd::prelude::*;
use vstd::string::*;

verus! {

/// The state of a peer connection.
#[derive(Debug, Clone, Copy, PartialEq, Eq, Structural)]
pub enum PeerState {
    New,
    Connecting,
    Connected,
    Disconnected,
    Failed,
    Closed,
    Unspecified,
}

/// What a session asks its caller to do next.
#[derive(Debug)]
pub enum SessionAction {
    /// Wait for the next event.
    Continue,
    /// End the session; nothing went wrong.
    Finish,
    /// Send the reply, then end the session with the error.
    Refuse { reply: SignalMessage, error: MediaError },
    /// End the session with the error.
    Fail { error: MediaError },
    /// Negotiate an answer to this offer.
    Negotiate { offer: String },
    /// Send this message.
    Send { message: SignalMessage },
    /// Hand this candidate to the peer connection.
    AddCandidate { candidate: String, sdp_mid: Option<String>, sdp_mline_index: Option<u16> },
    /// Ask the video encoder for a keyframe, so that the fresh viewer can start
    /// decoding.
    RequestKeyframe,
}

/// An action with its texts as character sequences; errors are given by their
/// message.
#[verifier::ext_equal]
pub enum ActionView {
    Continue,
    Finish,
    Refuse { reply: SignalView, error: Seq<char> },
    Fail { error: Seq<char> },
    Negotiate { offer: Seq<char> },
    Send { message: SignalView },
    AddCandidate {
        candidate: Seq<char>,
        sdp_mid: Option<Seq<char>>,
        sdp_mline_index: Option<u16>,
    },
    RequestKeyframe,
}

impl View for SessionAction {
    type V = ActionView;

    open spec fn view(&self) -> ActionView {
        match *self {
            SessionAction::Continue => ActionView::Continue,
            SessionAction::Finish => ActionView::Finish,
            SessionAction::Refuse { reply, error } => ActionView::Refuse {
                reply: reply@,
                error: error.text(),
            },
            SessionAction::Fail { error } => ActionView::Fail { error: error.text() },
            SessionAction::Negotiate { offer } => ActionView::Negotiate { offer: offer@ },
            SessionAction::Send { message } => ActionView::Send { message: message@ },
            SessionAction::AddCandidate { candidate, sdp_mid, sdp_mline_index } =>
                ActionView::AddCandidate {
                candidate: candidate@,
                sdp_mid: crate::signaling::text_view(sdp_mid),
                sdp_mline_index,
            },
            SessionAction::RequestKeyframe => ActionView::RequestKeyframe,
        }
    }
}

impl ActionView {
    /// Whether the session is over after the action.
    pub open spec fn is_terminal(self) -> bool {
        self is Finish || self is Refuse || self is Fail
    }
}

/// The reply and the error for a violation of the protocol.
pub open spec fn refusal(code: Seq<char>, message: Seq<char>, detail: Seq<char>) -> ActionView {
    ActionView::Refuse {
        reply: SignalView::error(code, message),
        error: "signaling error: "@ + detail,
    }
}

/// How a session reacts to a message, given whether it has taken an offer
/// already.
pub open spec fn message_action(answered: bool, message: SignalView) -> ActionView {
    if message.version() != PROTOCOL_VERSION {
        refusal(
            "bad_version"@,
            "agent speaks protocol v"@ + text::decimal(PROTOCOL_VERSION as nat),
            "client protocol v"@ + text::decimal(message.version() as nat),
        )
    } else {
        match message {
            SignalView::Offer { v, sdp } => if answered {
                refusal(
                    "renegotiation_unsupported"@,
                    "one offer per session"@,
                    "second offer"@,
                )
            } else {
                ActionView::Negotiate { offer: sdp }
            },
            SignalView::Candidate { v, candidate, sdp_mid, sdp_mline_index } =>
                ActionView::AddCandidate { candidate, sdp_mid, sdp_mline_index },
            _ => refusal(
                "bad_message"@,
                "unexpected message direction"@,
                "client sent agent-only message"@,
            ),
        }
    }
}

/// How a session reacts to a change of the peer connection's state.
pub open spec fn state_action(state: PeerState) -> ActionView {
    match state {
        PeerState::Connected => ActionView::RequestKeyframe,
        PeerState::Failed => ActionView::Finish,
        PeerState::Closed => ActionView::Finish,
        _ => ActionView::Continue,
    }
}

/// Something that happens to a session. A failed negotiation is given by the
/// message of its error.
#[verifier::ext_equal]
pub enum SessionEvent {
    /// A message arrived, or the client closed the transport.
    Inbound(Option<SignalView>),
    /// The peer connection's state changed, if there is a state to report.
    State(Option<PeerState>),
    /// The negotiation ended with an answer or an error.
    Negotiated(Result<Seq<char>, Seq<char>>),
    /// The answer was handed to the transport, or the transport was gone.
    Sent(bool),
}

/// How a session reacts to an event, given whether it has taken an offer
/// already.
pub open spec fn event_action(answered: bool, event: SessionEvent) -> ActionView {
    match event {
        SessionEvent::Inbound(Some(message)) => message_action(answered, message),
        SessionEvent::Inbound(None) => ActionView::Finish,
        SessionEvent::State(Some(state)) => state_action(state),
        SessionEvent::State(None) => ActionView::Continue,
        SessionEvent::Negotiated(Ok(sdp)) => ActionView::Send {
            message: SignalView::Answer { v: PROTOCOL_VERSION, sdp },
        },
        SessionEvent::Negotiated(Err(error)) => ActionView::Fail { error },
        SessionEvent::Sent(delivered) => if delivered {
            ActionView::Continue
        } else {
            ActionView::Finish
        },
    }
}

/// Whether an event can be what the caller reports after an action: the outcome
/// of a negotiation or of sending where it was asked for one, nothing after the
/// session ended, and otherwise a message or a state.
pub open spec fn expects(action: ActionView, event: SessionEvent) -> bool {
    match action {
        ActionView::Negotiate { .. } => event is Negotiated,
        ActionView::Send { .. } => event is Sent,
        _ => !action.is_terminal() && (event is Inbound || event is State),
    }
}

/// One client's session.
#[derive(Debug)]
pub struct Session {
    answered: bool,
}

impl Session {
    /// Whether an offer was taken.
    pub closed spec fn answered(&self) -> bool {
        self.answered
    }

    /// A session that has not received anything yet.
    pub fn new() -> (session: Session)
        ensures
            !session.answered(),
    {
        Session { answered: false }
    }

    /// A message arrived, or the client closed the transport (`None`).
    pub fn on_message(&mut self, inbound: Option<SignalMessage>) -> (action: SessionAction)
        ensures
            action@ == event_action(
                old(self).answered(),
                SessionEvent::Inbound(
                    match inbound {
                        Some(message) => Some(message@),
                        None => None,
                    },
                ),
            ),
            final(self).answered() == (old(self).answered() || action@ is Negotiate),
    {
        let message = match inbound {
            Some(message) => message,
            None => {
                return SessionAction::Finish;
            },
        };
        let version: u32 = message.version();
        if version != PROTOCOL_VERSION {
            let mut spoken = "agent speaks protocol v".to_owned();
            text::push_decimal(&mut spoken, PROTOCOL_VERSION as u128);
            let mut detail = "client protocol v".to_owned();
            text::push_decimal(&mut detail, version as u128);
            return SessionAction::Refuse {
                reply: SignalMessage::error("bad_version", spoken.as_str()),
                error: MediaError::Signaling(detail),
            };
        }
        match message {
            SignalMessage::Offer { sdp, .. } => {
                if self.answered {
                    return SessionAction::Refuse {
                        reply: SignalMessage::error(
                            "renegotiation_unsupported",
                            "one offer per session",
                        ),
                        error: MediaError::Signaling("second offer".to_owned()),
                    };
                }
                self.answered = true;
                SessionAction::Negotiate { offer: sdp }
            },
            SignalMessage::Candidate { candidate, sdp_mid, sdp_mline_index, .. } => {
                SessionAction::AddCandidate { candidate, sdp_mid, sdp_mline_index }
            },
            SignalMessage::Answer { .. } => agent_only(),
            SignalMessage::Error { .. } => agent_only(),
        }
    }

    /// The negotiation ended: the answer goes to the client, a failure ends the
    /// session.
    pub fn on_negotiated(&self, outcome: Result<String, MediaError>) -> (action: SessionAction)
        ensures
            action@ == event_action(
                self.answered(),
                SessionEvent::Negotiated(
                    match outcome {
                        Ok(sdp) => Ok(sdp@),
                        Err(e) => Err(e.text()),
                    },
                ),
            ),
            outcome matches Err(e) ==> action == (SessionAction::Fail { error: e }),
    {
        match outcome {
            Ok(sdp) => SessionAction::Send {
                message: SignalMessage::Answer { v: PROTOCOL_VERSION, sdp },
            },
            Err(e) => SessionAction::Fail { error: e },
        }
    }

    /// The answer was handed to the transport, or the transport was gone.
    pub fn on_sent(&self, delivered: bool) -> (action: SessionAction)
        ensures
            action@ == event_action(self.answered(), SessionEvent::Sent(delivered)),
    {
        if delivered {
            SessionAction::Continue
        } else {
            SessionAction::Finish
        }
    }

    /// The peer connection's state changed; `None` when there is no state to
    /// report.
    pub fn on_state(&self, state: Option<PeerState>) -> (action: SessionAction)
        ensures
            action@ == event_action(self.answered(), SessionEvent::State(state)),
    {
        match state {
            Some(PeerState::Connected) => SessionAction::RequestKeyframe,
            Some(PeerState::Failed) => SessionAction::Finish,
            Some(PeerState::Closed) => SessionAction::Finish,
            _ => SessionAction::Continue,
        }
    }
}

/// The refusal of a message only the agent may send.
fn agent_only() -> (action: SessionAction)
    ensures
        action@ == refusal(
            "bad_message"@,
            "unexpected message direction"@,
            "client sent agent-only message"@,
        ),
{
    SessionAction::Refuse {
        reply: SignalMessage::error("bad_message", "unexpected message direction"),
        error: MediaError::Signaling("client sent agent-only message".to_owned()),
    }
}

/// The actions of a session to which `events` happen one after the other, from
/// a point where its last action was `last`, up to the action that ends it or to
/// an event that cannot follow.
pub open spec fn actions_from(
    answered: bool,
    last: ActionView,
    events: Seq<SessionEvent>,
) -> Seq<ActionView>
    decreases events.len(),
{
    if events.len() == 0 || !expects(last, events[0]) {
        Seq::empty()
    } else {
        let action = event_action(answered, events[0]);
        seq![action] + actions_from(
            answered || action is Negotiate,
            action,
            events.drop_first(),
        )
    }
}

/// The actions of a new session to which `events` happen.
pub open spec fn session_actions(events: Seq<SessionEvent>) -> Seq<ActionView> {
    actions_from(false, ActionView::Continue, events)
}

/// The messages sent to the client in the course of `actions`.
pub open spec fn messages_sent(actions: Seq<ActionView>) -> Seq<SignalView>
    decreases actions.len(),
{
    if actions.len() == 0 {
        Seq::empty()
    } else {
        (match actions[0] {
            ActionView::Send { message } => seq![message],
            ActionView::Refuse { reply, .. } => seq![reply],
            _ => seq![],
        }) + messages_sent(actions.drop_first())
    }
}

/// How a session that took `actions` ended, if it did: without an error, or with
/// one of that message.
pub open spec fn session_result(actions: Seq<ActionView>) -> Option<Result<(), Seq<char>>> {
    if actions.len() == 0 {
        None
    } else {
        match actions.last() {
            ActionView::Finish => Some(Ok(())),
            ActionView::Refuse { error, .. } => Some(Err(error)),
            ActionView::Fail { error } => Some(Err(error)),
            _ => None,
        }
    }
}

/// The first action and the rest.
proof fn lemma_actions_unfold(answered: bool, last: ActionView, events: Seq<SessionEvent>)
    requires
        events.len() > 0,
        expects(last, events[0]),
    ensures
        ({
            let actions = actions_from(answered, last, events);
            let action = event_action(answered, events[0]);
            let rest = actions_from(answered || action is Negotiate, action, events.drop_first());
            &&& actions.len() == rest.len() + 1
            &&& actions[0] == action
            &&& actions.drop_first() == rest
            &&& forall|i: int| 0 < i < actions.len() ==> #[trigger] actions[i] == rest[i - 1]
            &&& rest.len() > 0 ==> actions.last() == rest.last()
            &&& actions.len() <= events.len()
        }),
    decreases events.len(),
{
    let action = event_action(answered, events[0]);
    let events_rest = events.drop_first();
    let rest = actions_from(answered || action is Negotiate, action, events_rest);
    assert(actions_from(answered, last, events).drop_first() =~= rest);
    if events_rest.len() > 0 && expects(action, events_rest[0]) {
        lemma_actions_unfold(answered || action is Negotiate, action, events_rest);
    }
}

/// Once the offer is answered or its answer is on the way, a session takes no
/// other offer and sends nothing but a refusal, with which it ends.
proof fn lemma_after_the_answer(last: ActionView, events: Seq<SessionEvent>)
    requires
        !(last is Negotiate),
    ensures
        ({
            let actions = actions_from(true, last, events);
            &&& forall|i: int|
                0 <= i < actions.len() ==> !(#[trigger] actions[i] is Negotiate) && !(
                actions[i] is Send) && !(events[i] is Negotiated)
            &&& messages_sent(actions) == (if actions.len() > 0 {
                match actions.last() {
                    ActionView::Refuse { reply, .. } => seq![reply],
                    _ => seq![],
                }
            } else {
                seq![]
            })
        }),
    decreases events.len(),
{
    if events.len() > 0 && expects(last, events[0]) {
        let action = event_action(true, events[0]);
        let rest = events.drop_first();
        let actions = actions_from(true, last, events);
        let later = actions_from(true, action, rest);
        lemma_actions_unfold(true, last, events);
        lemma_after_the_answer(action, rest);
        assert forall|i: int| 0 <= i < actions.len() implies !(#[trigger] actions[i] is Negotiate)
            && !(actions[i] is Send) && !(events[i] is Negotiated) by {
            if i > 0 {
                assert(actions[i] == later[i - 1]);
                assert(events[i] == rest[i - 1]);
            }
        }
    }
}

/// The error of a negotiation that failed, if the event is one.
pub open spec fn failure(event: SessionEvent) -> Option<Seq<char>> {
    match event {
        SessionEvent::Negotiated(Err(error)) => Some(error),
        _ => None,
    }
}

/// What the client of a session is sent, and how the session ends.
pub open spec fn well_answered(events: Seq<SessionEvent>, actions: Seq<ActionView>) -> bool {
    let sent = messages_sent(actions);
    &&& sent.len() <= 2
    &&& forall|i: int|
        0 <= i < sent.len() ==> (#[trigger] sent[i]).version() == PROTOCOL_VERSION && (
        sent[i] is Answer || sent[i] is Error)
    &&& sent.len() == 2 ==> sent[0] is Answer && sent[1] is Error
    &&& sent.len() > 0 && sent.last() is Error ==> {
        &&& actions.last() is Refuse
        &&& session_result(actions) matches Some(Err(error))
        &&& "signaling error: "@.is_prefix_of(error)
    }
    &&& forall|i: int|
        0 <= i < actions.len() && failure(#[trigger] events[i]) is Some ==> {
            &&& sent.len() == 0
            &&& session_result(actions) == Some::<Result<(), Seq<char>>>(
                Err(failure(events[i])->Some_0),
            )
        }
}

proof fn lemma_well_answered(last: ActionView, events: Seq<SessionEvent>)
    requires
        !(last is Negotiate),
        !(last is Send),
    ensures
        well_answered(events, actions_from(false, last, events)),
    decreases events.len(),
{
    if events.len() > 0 && expects(last, events[0]) {
        let action = event_action(false, events[0]);
        let actions = actions_from(false, last, events);
        let rest = events.drop_first();
        lemma_actions_unfold(false, last, events);
        if action is Negotiate {
            let later = actions_from(true, action, rest);
            assert(actions.drop_first() == later);
            assert(messages_sent(actions) =~= messages_sent(later));
            if rest.len() > 0 && expects(action, rest[0]) {
                lemma_actions_unfold(true, action, rest);
                let outcome = event_action(true, rest[0]);
                let end = rest.drop_first();
                lemma_after_the_answer(outcome, end);
                let tail = actions_from(true, outcome, end);
                assert(later[0] == outcome);
                assert(messages_sent(later.drop_first()) == messages_sent(tail));
                assert(messages_sent(later) == (match outcome {
                    ActionView::Send { message } => seq![message],
                    _ => seq![],
                }) + messages_sent(tail));
                assert forall|i: int|
                    2 <= i < actions.len() implies !(#[trigger] events[i] is Negotiated) by {
                    assert(events[i] == end[i - 2]);
                    assert(!(tail[i - 2] is Negotiate));
                }
                assert(events[1] == rest[0]);
                if tail.len() > 0 {
                    lemma_refusals_only(true, outcome, end, tail.len() - 1);
                }
            }
        } else if action.is_terminal() {
            assert(actions.len() == 1);
            assert(messages_sent(actions.drop_first()) =~= Seq::empty());
        } else {
            lemma_well_answered(action, rest);
            let later = actions_from(false, action, rest);
            assert(messages_sent(actions) =~= messages_sent(later));
            assert forall|i: int|
                0 <= i < actions.len() && failure(#[trigger] events[i]) is Some implies
                messages_sent(actions).len() == 0 && session_result(actions) == Some::<
                Result<(), Seq<char>>,
            >(Err(failure(events[i])->Some_0)) by {
                assert(i > 0);
                assert(events[i] == rest[i - 1]);
            }
        }
    }
}

/// A refusal carries an error at the agent's version and ends in a signaling
/// error.
proof fn lemma_refusals_only(
    answered: bool,
    last: ActionView,
    events: Seq<SessionEvent>,
    i: int,
)
    requires
        0 <= i < actions_from(answered, last, events).len(),
    ensures
        actions_from(answered, last, events)[i] matches ActionView::Refuse { reply, error } ==> {
            &&& reply is Error
            &&& reply.version() == PROTOCOL_VERSION
            &&& "signaling error: "@.is_prefix_of(error)
        },
    decreases events.len(),
{
    let action = event_action(answered, events[0]);
    lemma_actions_unfold(answered, last, events);
    if i > 0 {
        lemma_refusals_only(answered || action is Negotiate, action, events.drop_first(), i - 1);
    }
}

/// Whatever happens to a session, its client is sent at most one answer and then
/// at most one error, both at the agent's version, and never an offer or a
/// candidate. The error is the last thing that happens, and the session ends
/// with a signaling error. If the negotiation fails, the client is sent nothing
/// and the session ends with that failure.
pub proof fn law_client_is_well_answered(events: Seq<SessionEvent>)
    ensures
        well_answered(events, session_actions(events)),
{
    lemma_well_answered(ActionView::Continue, events);
}

/// A session negotiates at most once, whatever happens to it.
pub proof fn law_at_most_one_negotiation(events: Seq<SessionEvent>, i: int, j: int)
    requires
        0 <= i < j < session_actions(events).len(),
    ensures
        !(session_actions(events)[i] is Negotiate && session_actions(events)[j] is Negotiate),
{
    lemma_negotiates_once(ActionView::Continue, events, i, j);
}

proof fn lemma_negotiates_once(last: ActionView, events: Seq<SessionEvent>, i: int, j: int)
    requires
        0 <= i < j < actions_from(false, last, events).len(),
    ensures
        !(actions_from(false, last, events)[i] is Negotiate && actions_from(
            false,
            last,
            events,
        )[j] is Negotiate),
    decreases events.len(),
{
    let action = event_action(false, events[0]);
    let rest = events.drop_first();
    lemma_actions_unfold(false, last, events);
    if action is Negotiate {
        let later = actions_from(true, action, rest);
        if later.len() > 0 {
            lemma_actions_unfold(true, action, rest);
            let outcome = event_action(true, rest[0]);
            lemma_after_the_answer(outcome, rest.drop_first());
            if j > 1 {
                let tail = actions_from(true, outcome, rest.drop_first());
                assert(later[j - 1] == tail[j - 2]);
                if i > 1 {
                    assert(later[i - 1] == tail[i - 2]);
                }
            }
        }
    } else if i > 0 {
        lemma_negotiates_once(action, rest, i - 1, j - 1);
    }
}

/// Nothing follows the action that ends a session: every action before the last
/// lets it go on.
pub proof fn law_only_the_last_action_ends_a_session(
    answered: bool,
    last: ActionView,
    events: Seq<SessionEvent>,
    i: int,
)
    requires
        0 <= i < actions_from(answered, last, events).len() - 1,
    ensures
        !actions_from(answered, last, events)[i].is_terminal(),
    decreases events.len(),
{
    let action = event_action(answered, events[0]);
    lemma_actions_unfold(answered, last, events);
    if i > 0 {
        law_only_the_last_action_ends_a_session(
            answered || action is Negotiate,
            action,
            events.drop_first(),
            i - 1,
        );
    }
}

/// Every refused message is answered with a terminal error at the agent's own
/// version, under one of the documented codes.
pub proof fn law_refusals_are_answered(answered: bool, message: SignalView)
    ensures
        message_action(answered, message) matches ActionView::Refuse { reply, error } ==> {
            &&& reply matches SignalView::Error { v, code, message: detail }
            &&& v == PROTOCOL_VERSION
            &&& code == "bad_version"@ || code == "bad_message"@ || code
                == "renegotiation_unsupported"@
        },
{
}

/// A client that speaks another version is always refused, whatever it sends
/// and whenever it sends it.
pub proof fn law_other_versions_are_refused(answered: bool, message: SignalView)
    requires
        message.version() != PROTOCOL_VERSION,
    ensures
        message_action(answered, message) matches ActionView::Refuse { reply, error } && (
        reply matches SignalView::Error { v, code, message: detail } && code == "bad_version"@),
{
}

/// A second offer is a protocol error: once a session has taken an offer, the
/// next one ends it.
pub proof fn law_second_offer_is_refused(sdp: Seq<char>)
    ensures
        message_action(true, SignalView::Offer { v: PROTOCOL_VERSION, sdp }) == refusal(
            "renegotiation_unsupported"@,
            "one offer per session"@,
            "second offer"@,
        ),
{
}

/// Candidates never end a session, nor do they count as its offer.
pub proof fn law_candidates_are_always_taken(
    answered: bool,
    candidate: Seq<char>,
    sdp_mid: Option<Seq<char>>,
    sdp_mline_index: Option<u16>,
)
    ensures
        message_action(
            answered,
            SignalView::Candidate { v: PROTOCOL_VERSION, candidate, sdp_mid, sdp_mline_index },
        ) == (ActionView::AddCandidate { candidate, sdp_mid, sdp_mline_index }),
{
}

/// A refusal is a reply under its code and a signaling error with its own detail.
pub proof fn law_refusals_carry_their_texts(
    code: Seq<char>,
    message: Seq<char>,
    detail: Seq<char>,
)
    ensures
        refusal(code, message, detail) == (ActionView::Refuse {
            reply: SignalView::Error { v: 1, code, message },
            error: "signaling error: "@ + detail,
        }),
{
}

/// How a session reacts to what its client sends at the agent's version: the first
/// offer is negotiated as it came, every later one and every message that only the
/// agent may send is refused, and a candidate is passed on as it came.
pub proof fn law_reactions_to_messages(
    answered: bool,
    sdp: Seq<char>,
    other: Seq<char>,
    mid: Option<Seq<char>>,
    index: Option<u16>,
)
    ensures
        event_action(false, SessionEvent::Inbound(Some(SignalView::Offer { v: 1, sdp }))) == (
        ActionView::Negotiate { offer: sdp }),
        event_action(true, SessionEvent::Inbound(Some(SignalView::Offer { v: 1, sdp }))) == (
        ActionView::Refuse {
            reply: SignalView::Error {
                v: 1,
                code: "renegotiation_unsupported"@,
                message: "one offer per session"@,
            },
            error: "signaling error: "@ + "second offer"@,
        }),
        event_action(
            answered,
            SessionEvent::Inbound(
                Some(
                    SignalView::Candidate {
                        v: 1,
                        candidate: sdp,
                        sdp_mid: mid,
                        sdp_mline_index: index,
                    },
                ),
            ),
        ) == (ActionView::AddCandidate { candidate: sdp, sdp_mid: mid, sdp_mline_index: index }),
        event_action(answered, SessionEvent::Inbound(Some(SignalView::Answer { v: 1, sdp }))) == (
        ActionView::Refuse {
            reply: SignalView::Error {
                v: 1,
                code: "bad_message"@,
                message: "unexpected message direction"@,
            },
            error: "signaling error: "@ + "client sent agent-only message"@,
        }),
        event_action(
            answered,
            SessionEvent::Inbound(Some(SignalView::Error { v: 1, code: sdp, message: other })),
        ) == event_action(
            answered,
            SessionEvent::Inbound(Some(SignalView::Answer { v: 1, sdp })),
        ),
{
}

/// A message at any other version is refused before anything else is looked at,
/// and the refusal names both versions.
pub proof fn law_reaction_to_other_versions(answered: bool, message: SignalView)
    requires
        message.version() != 1,
    ensures
        event_action(answered, SessionEvent::Inbound(Some(message))) == (ActionView::Refuse {
            reply: SignalView::Error {
                v: 1,
                code: "bad_version"@,
                message: "agent speaks protocol v"@ + text::decimal(1),
            },
            error: "signaling error: "@ + ("client protocol v"@ + text::decimal(
                message.version() as nat,
            )),
        }),
{
}

/// How a session reacts to everything else: the answer goes to the client at the
/// agent's version as it was negotiated, and a failure ends the session with its
/// error. It ends without one when the client or the transport is gone or the peer
/// connection fails or closes. A new connection asks for a keyframe.
pub proof fn law_reactions_to_events(answered: bool, sdp: Seq<char>, state: PeerState)
    ensures
        event_action(answered, SessionEvent::Negotiated(Ok(sdp))) == (ActionView::Send {
            message: SignalView::Answer { v: 1, sdp },
        }),
        event_action(answered, SessionEvent::Negotiated(Err(sdp))) == (ActionView::Fail {
            error: sdp,
        }),
        event_action(answered, SessionEvent::Sent(true)) is Continue,
        event_action(answered, SessionEvent::Sent(false)) is Finish,
        event_action(answered, SessionEvent::Inbound(None)) is Finish,
        event_action(answered, SessionEvent::State(None)) is Continue,
        event_action(answered, SessionEvent::State(Some(state))) is RequestKeyframe <==> state
            is Connected,
        event_action(answered, SessionEvent::State(Some(state))) is Finish <==> state is Failed
            || state is Closed,
        event_action(answered, SessionEvent::State(Some(state))) is Continue <==> !(
        state is Connected || state is Failed || state is Closed),
{
}

/// A client that makes an offer and nothing else gets the answer that was
/// negotiated, and only that; the session goes on.
pub proof fn law_offers_are_answered(offer: Seq<char>, answer: Seq<char>)
    ensures
        ({
            let actions = session_actions(
                seq![
                    SessionEvent::Inbound(Some(SignalView::Offer { v: 1, sdp: offer })),
                    SessionEvent::Negotiated(Ok(answer)),
                    SessionEvent::Sent(true),
                ],
            );
            &&& actions.len() == 3
            &&& actions[0] == (ActionView::Negotiate { offer })
            &&& messages_sent(actions) == seq![SignalView::Answer { v: 1, sdp: answer }]
            &&& session_result(actions) is None
        }),
{
    let taken = SessionEvent::Inbound(Some(SignalView::Offer { v: 1, sdp: offer }));
    let negotiated = SessionEvent::Negotiated(Ok(answer));
    let sent = SessionEvent::Sent(true);
    let message = SignalView::Answer { v: 1, sdp: answer };
    let send = ActionView::Send { message };
    assert(seq![taken, negotiated, sent].drop_first() =~= seq![negotiated, sent]);
    assert(seq![negotiated, sent].drop_first() =~= seq![sent]);
    assert(seq![sent].drop_first() =~= seq![]);
    reveal_with_fuel(actions_from, 4);
    let actions = session_actions(seq![taken, negotiated, sent]);
    assert(actions =~= seq![ActionView::Negotiate { offer }, send, ActionView::Continue]);
    reveal_with_fuel(messages_sent, 4);
    assert(actions.drop_first() =~= seq![send, ActionView::Continue]);
    assert(seq![send, ActionView::Continue].drop_first() =~= seq![ActionView::Continue]);
    assert(seq![ActionView::Continue].drop_first() =~= seq![]);
    assert(messages_sent(actions) =~= seq![message]);
}

/// An action is seen as it is: every text in full, every number as it stands, and
/// errors by their message.
pub proof fn law_actions_are_seen_as_they_are(
    line: String,
    mid: Option<String>,
    index: Option<u16>,
    message: SignalMessage,
    error: MediaError,
)
    ensures
        SessionAction::Continue@ is Continue,
        SessionAction::Finish@ is Finish,
        SessionAction::RequestKeyframe@ is RequestKeyframe,
        (SessionAction::Refuse { reply: message, error })@ == (ActionView::Refuse {
            reply: message@,
            error: error.text(),
        }),
        (SessionAction::Fail { error })@ == (ActionView::Fail { error: error.text() }),
        (SessionAction::Negotiate { offer: line })@ == (ActionView::Negotiate { offer: line@ }),
        (SessionAction::Send { message })@ == (ActionView::Send { message: message@ }),
        (SessionAction::AddCandidate { candidate: line, sdp_mid: mid, sdp_mline_index: index })@
            matches ActionView::AddCandidate { candidate, sdp_mid, sdp_mline_index } && candidate
            == line@ && sdp_mline_index == index && match mid {
            Some(mid) => sdp_mid == Some(mid@),
            None => sdp_mid is None,
        },
{
}

} // verus!
