//! The signaling protocol: the versioned JSON messages that bootstrap a WebRTC
//! media session.
//!
//! One signaling session corresponds to one media session. The client sends an
//! offer and may trickle candidates afterwards; the agent answers once, with a
//! complete answer. Renegotiation is not supported.
use crate::text;
use vstd::prelude::*;
use vstd::string::*;

verus! {

/// The protocol version this agent speaks. Every message carries the version so
/// that newer clients and agents can detect a mismatch.
pub const PROTOCOL_VERSION: u32 = 1;

/// A signaling message, JSON-encoded on the wire with a `type` tag.
///
/// Wire shapes (version 1):
///
/// ```json
/// {"type":"offer","v":1,"sdp":"v=0\r\n..."}
/// {"type":"answer","v":1,"sdp":"v=0\r\n..."}
/// {"type":"candidate","v":1,"candidate":"candidate:...","sdp_mid":"0","sdp_mline_index":0}
/// {"type":"error","v":1,"code":"bad_version","message":"agent speaks protocol v1"}
/// ```
#[derive(Debug, Clone, PartialEq, Eq)]
pub enum SignalMessage {
    /// Client to agent: an SDP offer opening a media session.
    Offer {
        /// Protocol version; must be [`PROTOCOL_VERSION`].
        v: u32,
        /// The client's SDP offer.
        sdp: String,
    },
    /// Agent to client: the complete SDP answer.
    Answer {
        /// Protocol version.
        v: u32,
        /// The agent's SDP answer.
        sdp: String,
    },
    /// Client to agent: one trickled ICE candidate discovered after the offer.
    Candidate {
        /// Protocol version.
        v: u32,
        /// The `candidate:...` attribute line.
        candidate: String,
        /// The media-section identification tag the candidate belongs to.
        sdp_mid: Option<String>,
        /// The index of the media section the candidate belongs to.
        sdp_mline_index: Option<u16>,
    },
    /// Agent to client: a terminal protocol error; the agent closes the session
    /// immediately after sending it.
    Error {
        /// Protocol version.
        v: u32,
        /// Machine-readable error code (`bad_version`, `bad_message`,
        /// `renegotiation_unsupported`).
        code: String,
        /// Human-readable detail.
        message: String,
    },
}

/// A signaling message with its texts as character sequences.
#[verifier::ext_equal]
pub enum SignalView {
    Offer { v: u32, sdp: Seq<char> },
    Answer { v: u32, sdp: Seq<char> },
    Candidate {
        v: u32,
        candidate: Seq<char>,
        sdp_mid: Option<Seq<char>>,
        sdp_mline_index: Option<u16>,
    },
    Error { v: u32, code: Seq<char>, message: Seq<char> },
}

/// The characters of an optional text.
pub open spec fn text_view(t: Option<String>) -> Option<Seq<char>> {
    match t {
        Some(s) => Some(s@),
        None => None,
    }
}

impl View for SignalMessage {
    type V = SignalView;

    open spec fn view(&self) -> SignalView {
        match *self {
            SignalMessage::Offer { v, sdp } => SignalView::Offer { v, sdp: sdp@ },
            SignalMessage::Answer { v, sdp } => SignalView::Answer { v, sdp: sdp@ },
            SignalMessage::Candidate { v, candidate, sdp_mid, sdp_mline_index } =>
                SignalView::Candidate {
                v,
                candidate: candidate@,
                sdp_mid: text_view(sdp_mid),
                sdp_mline_index,
            },
            SignalMessage::Error { v, code, message } => SignalView::Error {
                v,
                code: code@,
                message: message@,
            },
        }
    }
}

impl SignalView {
    /// The protocol version carried by the message.
    pub open spec fn version(self) -> u32 {
        match self {
            SignalView::Offer { v, .. } => v,
            SignalView::Answer { v, .. } => v,
            SignalView::Candidate { v, .. } => v,
            SignalView::Error { v, .. } => v,
        }
    }

    /// A protocol error at the current version.
    pub open spec fn error(code: Seq<char>, message: Seq<char>) -> SignalView {
        SignalView::Error { v: PROTOCOL_VERSION, code, message }
    }
}

/// A lower-case hexadecimal digit.
pub open spec fn hex_char(d: nat) -> char {
    if d < 10 {
        (48 + d) as char
    } else {
        (87 + d) as char
    }
}

/// How one character is written inside a JSON string.
pub open spec fn json_escape(c: char) -> Seq<char> {
    let code = c as nat;
    if c == '"' || c == '\\' {
        seq!['\\', c]
    } else if code == 8 {
        seq!['\\', 'b']
    } else if code == 9 {
        seq!['\\', 't']
    } else if code == 10 {
        seq!['\\', 'n']
    } else if code == 12 {
        seq!['\\', 'f']
    } else if code == 13 {
        seq!['\\', 'r']
    } else if code < 32 {
        seq!['\\', 'u', '0', '0', hex_char(code / 16), hex_char(code % 16)]
    } else {
        seq![c]
    }
}

/// The characters of a text, each written as JSON requires.
pub open spec fn json_escaped(s: Seq<char>) -> Seq<char>
    decreases s.len(),
{
    if s.len() == 0 {
        Seq::empty()
    } else {
        json_escape(s[0]) + json_escaped(s.drop_first())
    }
}

/// A text as a JSON string, quotes and all.
pub open spec fn json_string(s: Seq<char>) -> Seq<char> {
    seq!['"'] + json_escaped(s) + seq!['"']
}

/// `serde_json::to_string` of a text never fails, and gives the text between
/// quotes with the quote, the backslash and the control characters escaped: the
/// short escapes where JSON has them, four hexadecimal digits otherwise.
#[verifier::external_body]
fn quote_json(s: &str) -> (r: Option<String>)
    ensures
        r is Some,
        r->Some_0@ == json_string(s@),
{
    serde_json::to_string(s).ok()
}

/// Appends a text as a JSON string.
fn push_json_string(out: &mut String, s: &str)
    ensures
        final(out)@ == old(out)@ + json_string(s@),
{
    if let Some(quoted) = quote_json(s) {
        out.append(quoted.as_str());
    }
}

/// The wire text of a message.
pub open spec fn wire_text(message: SignalView) -> Seq<char> {
    match message {
        SignalView::Offer { v, sdp } => "{\"type\":\"offer\",\"v\":"@ + text::decimal(v as nat)
            + ",\"sdp\":"@ + json_string(sdp) + "}"@,
        SignalView::Answer { v, sdp } => "{\"type\":\"answer\",\"v\":"@ + text::decimal(v as nat)
            + ",\"sdp\":"@ + json_string(sdp) + "}"@,
        SignalView::Candidate { v, candidate, sdp_mid, sdp_mline_index } =>
            "{\"type\":\"candidate\",\"v\":"@ + text::decimal(v as nat) + ",\"candidate\":"@
            + json_string(candidate) + ",\"sdp_mid\":"@ + (match sdp_mid {
            Some(mid) => json_string(mid),
            None => "null"@,
        }) + ",\"sdp_mline_index\":"@ + (match sdp_mline_index {
            Some(index) => text::decimal(index as nat),
            None => "null"@,
        }) + "}"@,
        SignalView::Error { v, code, message } => "{\"type\":\"error\",\"v\":"@ + text::decimal(
            v as nat,
        ) + ",\"code\":"@ + json_string(code) + ",\"message\":"@ + json_string(message) + "}"@,
    }
}

impl SignalMessage {
    /// The protocol version carried by this message.
    pub fn version(&self) -> (v: u32)
        ensures
            v == self@.version(),
    {
        match self {
            SignalMessage::Offer { v, .. } => *v,
            SignalMessage::Answer { v, .. } => *v,
            SignalMessage::Candidate { v, .. } => *v,
            SignalMessage::Error { v, .. } => *v,
        }
    }

    /// Builds a [`SignalMessage::Error`] at the current protocol version.
    pub fn error(code: &str, message: &str) -> (m: SignalMessage)
        ensures
            m@ == SignalView::error(code@, message@),
    {
        SignalMessage::Error {
            v: PROTOCOL_VERSION,
            code: code.to_owned(),
            message: message.to_owned(),
        }
    }

    /// Encodes the message for the wire.
    pub fn to_json(&self) -> (json: String)
        ensures
            json@ == wire_text(self@),
    {
        match self {
            SignalMessage::Offer { v, sdp } => {
                let mut out = "{\"type\":\"offer\",\"v\":".to_owned();
                text::push_decimal(&mut out, *v as u128);
                out.append(",\"sdp\":");
                push_json_string(&mut out, sdp.as_str());
                out.append("}");
                out
            },
            SignalMessage::Answer { v, sdp } => {
                let mut out = "{\"type\":\"answer\",\"v\":".to_owned();
                text::push_decimal(&mut out, *v as u128);
                out.append(",\"sdp\":");
                push_json_string(&mut out, sdp.as_str());
                out.append("}");
                out
            },
            SignalMessage::Candidate { v, candidate, sdp_mid, sdp_mline_index } => {
                let mut out = "{\"type\":\"candidate\",\"v\":".to_owned();
                text::push_decimal(&mut out, *v as u128);
                out.append(",\"candidate\":");
                push_json_string(&mut out, candidate.as_str());
                out.append(",\"sdp_mid\":");
                match sdp_mid {
                    Some(mid) => push_json_string(&mut out, mid.as_str()),
                    None => out.append("null"),
                }
                out.append(",\"sdp_mline_index\":");
                match sdp_mline_index {
                    Some(index) => text::push_decimal(&mut out, *index as u128),
                    None => out.append("null"),
                }
                out.append("}");
                out
            },
            SignalMessage::Error { v, code, message } => {
                let mut out = "{\"type\":\"error\",\"v\":".to_owned();
                text::push_decimal(&mut out, *v as u128);
                out.append(",\"code\":");
                push_json_string(&mut out, code.as_str());
                out.append(",\"message\":");
                push_json_string(&mut out, message.as_str());
                out.append("}");
                out
            },
        }
    }
}

/// Two messages with the same wire text are the same message: a client can
/// always tell what was sent.
pub proof fn law_wire_text_is_lossless(a: SignalView, b: SignalView)
    requires
        wire_text(a) == wire_text(b),
    ensures
        a == b,
{
    lemma_tags(a);
    lemma_tags(b);
    match a {
        SignalView::Offer { .. } => lemma_offer_is_lossless(a, b),
        SignalView::Answer { .. } => lemma_answer_is_lossless(a, b),
        SignalView::Candidate { .. } => lemma_candidate_is_lossless(a, b),
        SignalView::Error { .. } => lemma_error_is_lossless(a, b),
    }
}

/// The wire text of a message is a JSON object: the type, the version and then
/// each field under its name, with texts quoted and what is absent as `null`.
pub proof fn law_wire_shapes(
    v: u32,
    line: Seq<char>,
    other: Seq<char>,
    mid: Option<Seq<char>>,
    index: Option<u16>,
)
    ensures
        ({
            let version = text::decimal(v as nat);
            let line_text = json_string(line);
            let mid_text = match mid {
                Some(mid) => json_string(mid),
                None => "null"@,
            };
            let index_text = match index {
                Some(index) => text::decimal(index as nat),
                None => "null"@,
            };
            &&& wire_text(SignalView::Offer { v, sdp: line }) == "{\"type\":\"offer\",\"v\":"@
                + version + ",\"sdp\":"@ + line_text + "}"@
            &&& wire_text(SignalView::Answer { v, sdp: line }) == "{\"type\":\"answer\",\"v\":"@
                + version + ",\"sdp\":"@ + line_text + "}"@
            &&& wire_text(SignalView::Error { v, code: line, message: other })
                == "{\"type\":\"error\",\"v\":"@ + version + ",\"code\":"@ + line_text
                + ",\"message\":"@ + json_string(other) + "}"@
            &&& wire_text(
                SignalView::Candidate {
                    v,
                    candidate: line,
                    sdp_mid: mid,
                    sdp_mline_index: index,
                },
            ) == "{\"type\":\"candidate\",\"v\":"@ + version + ",\"candidate\":"@ + line_text
                + ",\"sdp_mid\":"@ + mid_text + ",\"sdp_mline_index\":"@ + index_text + "}"@
        }),
{
}

/// Every kind of message carries its version, and the agent's errors carry the
/// version it speaks, which is one.
pub proof fn law_versions(v: u32, message: SignalView, code: Seq<char>, detail: Seq<char>)
    ensures
        SignalView::error(code, detail) == (SignalView::Error { v: 1, code, message: detail }),
        message.version() == v <==> match message {
            SignalView::Offer { v: carried, .. } => carried == v,
            SignalView::Answer { v: carried, .. } => carried == v,
            SignalView::Candidate { v: carried, .. } => carried == v,
            SignalView::Error { v: carried, .. } => carried == v,
        },
{
}

/// A text without quotes, backslashes and control characters is quoted as it is.
pub proof fn law_plain_texts_are_quoted_as_they_are(s: Seq<char>)
    requires
        forall|i: int|
            0 <= i < s.len() ==> #[trigger] s[i] != '"' && s[i] != '\\' && s[i] as nat >= 32,
    ensures
        json_string(s) == seq!['"'] + s + seq!['"'],
{
    lemma_plain_text(s);
}

proof fn lemma_plain_text(s: Seq<char>)
    requires
        forall|i: int|
            0 <= i < s.len() ==> #[trigger] s[i] != '"' && s[i] != '\\' && s[i] as nat >= 32,
    ensures
        json_escaped(s) == s,
    decreases s.len(),
{
    if s.len() == 0 {
        assert(json_escaped(s) =~= s);
    } else {
        let rest = s.drop_first();
        assert forall|i: int| 0 <= i < rest.len() implies #[trigger] rest[i] != '"' && rest[i]
            != '\\' && rest[i] as nat >= 32 by {
            assert(rest[i] == s[i + 1]);
        }
        lemma_plain_text(rest);
        assert(json_escaped(s) =~= s);
    }
}

proof fn lemma_offer_is_lossless(a: SignalView, b: SignalView)
    requires
        a is Offer,
        b is Offer,
        wire_text(a) == wire_text(b),
    ensures
        a == b,
{
    let (v, w, sdp, other) = (a.version(), b.version(), a->Offer_sdp, b->Offer_sdp);
    let (head, key, close) = ("{\"type\":\"offer\",\"v\":"@, ",\"sdp\":"@, "}"@);
    let (x, y) = (json_string(sdp) + close, json_string(other) + close);
    reveal_strlit(",\"sdp\":");
    assert(wire_text(a) =~= head + (text::decimal(v as nat) + (key + x)));
    assert(wire_text(b) =~= head + (text::decimal(w as nat) + (key + y)));
    lemma_version_splits(head, v, key, x, w, y);
    lemma_json_string_splits(sdp, close, other, close);
}

proof fn lemma_answer_is_lossless(a: SignalView, b: SignalView)
    requires
        a is Answer,
        b is Answer,
        wire_text(a) == wire_text(b),
    ensures
        a == b,
{
    let (v, w, sdp, other) = (a.version(), b.version(), a->Answer_sdp, b->Answer_sdp);
    let (head, key, close) = ("{\"type\":\"answer\",\"v\":"@, ",\"sdp\":"@, "}"@);
    let (x, y) = (json_string(sdp) + close, json_string(other) + close);
    reveal_strlit(",\"sdp\":");
    assert(wire_text(a) =~= head + (text::decimal(v as nat) + (key + x)));
    assert(wire_text(b) =~= head + (text::decimal(w as nat) + (key + y)));
    lemma_version_splits(head, v, key, x, w, y);
    lemma_json_string_splits(sdp, close, other, close);
}

proof fn lemma_candidate_is_lossless(a: SignalView, b: SignalView)
    requires
        a is Candidate,
        b is Candidate,
        wire_text(a) == wire_text(b),
    ensures
        a == b,
{
    let (v, w) = (a.version(), b.version());
    let (line, other) = (a->candidate, b->candidate);
    let (mid, other_mid) = (a->sdp_mid, b->sdp_mid);
    let (index, other_index) = (a->sdp_mline_index, b->sdp_mline_index);
    let (head, key) = ("{\"type\":\"candidate\",\"v\":"@, ",\"candidate\":"@);
    let (mid_key, index_key) = (",\"sdp_mid\":"@, ",\"sdp_mline_index\":"@);
    let close = "}"@;
    let (x3, y3) = (wire_index(index) + close, wire_index(other_index) + close);
    let (x2, y2) = (wire_mid(mid) + (index_key + x3), wire_mid(other_mid) + (index_key + y3));
    let (x1, y1) = (
        json_string(line) + (mid_key + x2),
        json_string(other) + (mid_key + y2),
    );
    assert(key.len() > 0 && key[0] == ',') by {
        reveal_strlit(",\"candidate\":");
    }
    lemma_nine_parts(
        head,
        text::decimal(v as nat),
        key,
        json_string(line),
        mid_key,
        wire_mid(mid),
        index_key,
        wire_index(index),
        close,
    );
    lemma_nine_parts(
        head,
        text::decimal(w as nat),
        key,
        json_string(other),
        mid_key,
        wire_mid(other_mid),
        index_key,
        wire_index(other_index),
        close,
    );
    lemma_version_splits(head, v, key, x1, w, y1);
    lemma_json_string_splits(line, mid_key + x2, other, mid_key + y2);
    lemma_prefix_cancels(mid_key, x2, y2);
    lemma_mid_splits(mid, index_key + x3, other_mid, index_key + y3);
    lemma_prefix_cancels(index_key, x3, y3);
    lemma_index_splits(index, other_index);
}

proof fn lemma_error_is_lossless(a: SignalView, b: SignalView)
    requires
        a is Error,
        b is Error,
        wire_text(a) == wire_text(b),
    ensures
        a == b,
{
    let (v, w) = (a.version(), b.version());
    let (code, other_code) = (a->code, b->code);
    let (message, other_message) = (a->message, b->message);
    let (head, key) = ("{\"type\":\"error\",\"v\":"@, ",\"code\":"@);
    let (message_key, close) = (",\"message\":"@, "}"@);
    let (x2, y2) = (json_string(message) + close, json_string(other_message) + close);
    let (x1, y1) = (
        json_string(code) + (message_key + x2),
        json_string(other_code) + (message_key + y2),
    );
    reveal_strlit(",\"code\":");
    assert(wire_text(a) =~= head + (text::decimal(v as nat) + (key + x1)));
    assert(wire_text(b) =~= head + (text::decimal(w as nat) + (key + y1)));
    lemma_version_splits(head, v, key, x1, w, y1);
    lemma_json_string_splits(code, message_key + x2, other_code, message_key + y2);
    lemma_prefix_cancels(message_key, x2, y2);
    lemma_json_string_splits(message, close, other_message, close);
}

/// The tenth character of a wire text tells the kinds of message apart.
proof fn lemma_tags(message: SignalView)
    ensures
        wire_text(message).len() > 9,
        wire_text(message)[9] == (match message {
            SignalView::Offer { .. } => 'o',
            SignalView::Answer { .. } => 'a',
            SignalView::Candidate { .. } => 'c',
            SignalView::Error { .. } => 'e',
        }),
{
    reveal_strlit("{\"type\":\"offer\",\"v\":");
    reveal_strlit("{\"type\":\"answer\",\"v\":");
    reveal_strlit("{\"type\":\"candidate\",\"v\":");
    reveal_strlit("{\"type\":\"error\",\"v\":");
}

/// The wire text of an optional media-section tag.
spec fn wire_mid(mid: Option<Seq<char>>) -> Seq<char> {
    match mid {
        Some(mid) => json_string(mid),
        None => "null"@,
    }
}

/// The wire text of an optional media-section index.
spec fn wire_index(index: Option<u16>) -> Seq<char> {
    match index {
        Some(index) => text::decimal(index as nat),
        None => "null"@,
    }
}

proof fn lemma_nine_parts(
    a: Seq<char>,
    b: Seq<char>,
    c: Seq<char>,
    d: Seq<char>,
    e: Seq<char>,
    f: Seq<char>,
    g: Seq<char>,
    h: Seq<char>,
    i: Seq<char>,
)
    ensures
        a + b + c + d + e + f + g + h + i == a + (b + (c + (d + (e + (f + (g + (h + i))))))),
{
    assert(a + b + c + d + e + f + g + h + i =~= a + b + c + d + e + f + g + (h + i));
    let hi = h + i;
    assert(a + b + c + d + e + f + g + hi =~= a + b + c + d + e + f + (g + hi));
    let ghi = g + hi;
    assert(a + b + c + d + e + f + ghi =~= a + b + c + d + e + (f + ghi));
    let fghi = f + ghi;
    assert(a + b + c + d + e + fghi =~= a + b + c + d + (e + fghi));
    let efghi = e + fghi;
    assert(a + b + c + d + efghi =~= a + b + c + (d + efghi));
    let defghi = d + efghi;
    assert(a + b + c + defghi =~= a + b + (c + defghi));
    let cdefghi = c + defghi;
    assert(a + b + cdefghi =~= a + (b + cdefghi));
}

proof fn lemma_prefix_cancels(prefix: Seq<char>, x: Seq<char>, y: Seq<char>)
    requires
        prefix + x == prefix + y,
    ensures
        x == y,
{
    assert((prefix + x).skip(prefix.len() as int) =~= x);
    assert((prefix + y).skip(prefix.len() as int) =~= y);
}

proof fn lemma_version_splits(
    head: Seq<char>,
    v: u32,
    key: Seq<char>,
    x: Seq<char>,
    w: u32,
    y: Seq<char>,
)
    requires
        head + (text::decimal(v as nat) + (key + x)) == head + (text::decimal(w as nat) + (key
            + y)),
        key.len() > 0,
        key[0] == ',',
    ensures
        v == w,
        x == y,
{
    lemma_prefix_cancels(
        head,
        text::decimal(v as nat) + (key + x),
        text::decimal(w as nat) + (key + y),
    );
    text::lemma_decimal_splits(v as nat, key + x, w as nat, key + y);
    lemma_prefix_cancels(key, x, y);
}

proof fn lemma_json_string_splits(s: Seq<char>, x: Seq<char>, t: Seq<char>, y: Seq<char>)
    requires
        json_string(s) + x == json_string(t) + y,
    ensures
        s == t,
        x == y,
{
    let quote = seq!['"'];
    assert(json_string(s) + x =~= quote + (json_escaped(s) + (quote + x)));
    assert(json_string(t) + y =~= quote + (json_escaped(t) + (quote + y)));
    lemma_prefix_cancels(quote, json_escaped(s) + (quote + x), json_escaped(t) + (quote + y));
    lemma_escaped_splits(s, quote + x, t, quote + y);
    lemma_prefix_cancels(quote, x, y);
}

/// An escaped text ends at the first unescaped quote.
proof fn lemma_escaped_splits(s: Seq<char>, x: Seq<char>, t: Seq<char>, y: Seq<char>)
    requires
        json_escaped(s) + x == json_escaped(t) + y,
        x.len() > 0,
        x[0] == '"',
        y.len() > 0,
        y[0] == '"',
    ensures
        s == t,
        x == y,
    decreases s.len(),
{
    let left = json_escaped(s) + x;
    let right = json_escaped(t) + y;
    if s.len() == 0 && t.len() == 0 {
        assert(left =~= x);
        assert(right =~= y);
        assert(s =~= t);
    } else if s.len() == 0 {
        assert(left[0] == '"');
        assert(right[0] == json_escape(t[0])[0]);
    } else if t.len() == 0 {
        assert(right[0] == '"');
        assert(left[0] == json_escape(s[0])[0]);
    } else {
        let rest_left = json_escaped(s.drop_first()) + x;
        let rest_right = json_escaped(t.drop_first()) + y;
        assert(left =~= json_escape(s[0]) + rest_left);
        assert(right =~= json_escape(t[0]) + rest_right);
        lemma_escape_splits(s[0], rest_left, t[0], rest_right);
        lemma_escaped_splits(s.drop_first(), x, t.drop_first(), y);
        assert(s =~= seq![s[0]] + s.drop_first());
        assert(t =~= seq![t[0]] + t.drop_first());
    }
}

/// One escaped character tells where it ends and which character it stands for.
proof fn lemma_escape_splits(c: char, x: Seq<char>, d: char, y: Seq<char>)
    requires
        json_escape(c) + x == json_escape(d) + y,
    ensures
        c == d,
        x == y,
{
    let left = json_escape(c) + x;
    let right = json_escape(d) + y;
    assert(left[0] == json_escape(c)[0]);
    assert(right[0] == json_escape(d)[0]);
    if json_escape(c).len() > 1 {
        assert(left[1] == json_escape(c)[1]);
    }
    if json_escape(d).len() > 1 {
        assert(right[1] == json_escape(d)[1]);
    }
    if json_escape(c).len() == 6 && json_escape(d).len() == 6 {
        assert(left[4] == json_escape(c)[4]);
        assert(right[4] == json_escape(d)[4]);
        assert(left[5] == json_escape(c)[5]);
        assert(right[5] == json_escape(d)[5]);
    }
    assert(c == d);
    lemma_prefix_cancels(json_escape(c), x, y);
}

proof fn lemma_mid_splits(
    mid: Option<Seq<char>>,
    x: Seq<char>,
    other: Option<Seq<char>>,
    y: Seq<char>,
)
    requires
        wire_mid(mid) + x == wire_mid(other) + y,
    ensures
        mid == other,
        x == y,
{
    reveal_strlit("null");
    let left = wire_mid(mid) + x;
    let right = wire_mid(other) + y;
    assert(left[0] == wire_mid(mid)[0]);
    assert(right[0] == wire_mid(other)[0]);
    match (mid, other) {
        (Some(m), Some(o)) => {
            lemma_json_string_splits(m, x, o, y);
        },
        (None, None) => {
            lemma_prefix_cancels("null"@, x, y);
        },
        _ => {},
    }
}

proof fn lemma_index_splits(index: Option<u16>, other: Option<u16>)
    requires
        wire_index(index) + "}"@ == wire_index(other) + "}"@,
    ensures
        index == other,
{
    reveal_strlit("null");
    reveal_strlit("}");
    let close = "}"@;
    let left = wire_index(index) + close;
    let right = wire_index(other) + close;
    match (index, other) {
        (Some(m), Some(o)) => {
            text::lemma_decimal_splits(m as nat, close, o as nat, close);
        },
        (Some(m), None) => {
            text::lemma_decimal_digits(m as nat);
            assert(left[0] == text::decimal(m as nat)[0]);
            assert(right[0] == 'n');
        },
        (None, Some(o)) => {
            text::lemma_decimal_digits(o as nat);
            assert(right[0] == text::decimal(o as nat)[0]);
            assert(left[0] == 'n');
        },
        (None, None) => {},
    }
}

/// A message is seen as it is: every text in full, every number as it stands.
pub proof fn law_messages_are_seen_as_they_are(
    v: u32,
    line: String,
    other: String,
    mid: Option<String>,
    index: Option<u16>,
)
    ensures
        (SignalMessage::Offer { v, sdp: line })@ == (SignalView::Offer { v, sdp: line@ }),
        (SignalMessage::Answer { v, sdp: line })@ == (SignalView::Answer { v, sdp: line@ }),
        (SignalMessage::Error { v, code: line, message: other })@ == (SignalView::Error {
            v,
            code: line@,
            message: other@,
        }),
        (SignalMessage::Candidate { v, candidate: line, sdp_mid: mid, sdp_mline_index: index })@
            == (SignalView::Candidate {
            v,
            candidate: line@,
            sdp_mid: match mid {
                Some(mid) => Some(mid@),
                None => None,
            },
            sdp_mline_index: index,
        }),
{
}

} // verus!
