//! Which request a text (JSON) message from a client is.

use vstd::prelude::*;

verus! {

/// The member of a JSON text that names a request, as mathematical values.
pub enum JsonMemberView {
    /// The text is not JSON.
    Unparsable,
    /// The text is JSON but not an object.
    NotAnObject,
    /// The object has no member of that name.
    Absent,
    /// The member's value is not a string.
    NotText,
    /// The string value of the member.
    Text(Seq<char>),
}

/// A string member of a JSON object text.
#[derive(Debug, Clone)]
pub enum JsonMember {
    Unparsable,
    NotAnObject,
    Absent,
    NotText,
    Text(String),
}

impl View for JsonMember {
    type V = JsonMemberView;

    open spec fn view(&self) -> JsonMemberView {
        match self {
            JsonMember::Unparsable => JsonMemberView::Unparsable,
            JsonMember::NotAnObject => JsonMemberView::NotAnObject,
            JsonMember::Absent => JsonMemberView::Absent,
            JsonMember::NotText => JsonMemberView::NotText,
            JsonMember::Text(s) => JsonMemberView::Text(s@),
        }
    }
}

/// What `serde_json` reads as the string member `key` of the JSON text `text`.
pub uninterp spec fn json_member(text: Seq<char>, key: Seq<char>) -> JsonMemberView;

/// Calls `serde_json::from_str` into a `serde_json::Value`, then
/// `serde_json::Map::remove` of `key` on the object. Trusted: the result is
/// named `json_member` of the text and the key; which texts parse, and how,
/// is not stated.
#[verifier::external_body]
fn read_json_member(text: &str, key: &str) -> (r: JsonMember)
    ensures
        r@ == json_member(text@, key@),
{
    match serde_json::from_str::<serde_json::Value>(text) {
        Err(_) => JsonMember::Unparsable,
        Ok(serde_json::Value::Object(mut m)) => match m.remove(key) {
            Some(serde_json::Value::String(s)) => JsonMember::Text(s),
            Some(_) => JsonMember::NotText,
            None => JsonMember::Absent,
        },
        Ok(_) => JsonMember::NotAnObject,
    }
}

/// The requests a client can send as text.
#[derive(PartialEq, Eq, Structural, Debug, Clone, Copy)]
pub enum TextOp {
    Subscribe,
    Unsubscribe,
    Advertise,
    Unadvertise,
    GetParameters,
    SetParameters,
    SubscribeParameterUpdates,
    UnsubscribeParameterUpdates,
}

/// What a text message from a client is.
#[derive(Debug, Clone)]
pub enum TextInput {
    /// Not JSON.
    Unparsable,
    /// JSON but not an object.
    NotAnObject,
    /// An object without a string `op` member.
    NoOp,
    /// A request the server does not handle; holds its `op`.
    UnknownOp(String),
    /// A request the server handles.
    Request(TextOp),
}

/// What a text message from a client is, as mathematical values.
pub enum TextInputView {
    Unparsable,
    NotAnObject,
    NoOp,
    UnknownOp(Seq<char>),
    Request(TextOp),
}

impl View for TextInput {
    type V = TextInputView;

    open spec fn view(&self) -> TextInputView {
        match self {
            TextInput::Unparsable => TextInputView::Unparsable,
            TextInput::NotAnObject => TextInputView::NotAnObject,
            TextInput::NoOp => TextInputView::NoOp,
            TextInput::UnknownOp(s) => TextInputView::UnknownOp(s@),
            TextInput::Request(op) => TextInputView::Request(*op),
        }
    }
}

/// The request that an `op` value names, if the server handles it.
pub open spec fn text_op_of(op: Seq<char>) -> Option<TextOp> {
    if op == "subscribe"@ {
        Some(TextOp::Subscribe)
    } else if op == "unsubscribe"@ {
        Some(TextOp::Unsubscribe)
    } else if op == "advertise"@ {
        Some(TextOp::Advertise)
    } else if op == "unadvertise"@ {
        Some(TextOp::Unadvertise)
    } else if op == "getParameters"@ {
        Some(TextOp::GetParameters)
    } else if op == "setParameters"@ {
        Some(TextOp::SetParameters)
    } else if op == "subscribeParameterUpdates"@ {
        Some(TextOp::SubscribeParameterUpdates)
    } else if op == "unsubscribeParameterUpdates"@ {
        Some(TextOp::UnsubscribeParameterUpdates)
    } else {
        None
    }
}

/// What a message is, given its `op` member.
pub open spec fn classify_spec(m: JsonMemberView) -> TextInputView {
    match m {
        JsonMemberView::Unparsable => TextInputView::Unparsable,
        JsonMemberView::NotAnObject => TextInputView::NotAnObject,
        JsonMemberView::Absent => TextInputView::NoOp,
        JsonMemberView::NotText => TextInputView::NoOp,
        JsonMemberView::Text(op) => match text_op_of(op) {
            Some(t) => TextInputView::Request(t),
            None => TextInputView::UnknownOp(op),
        },
    }
}

fn is_text(s: &String, lit: &str) -> (r: bool)
    ensures
        r == (s@ == lit@),
{
    *s == String::from_str(lit)
}

/// The request that an `op` value names, if the server handles it.
pub fn text_op(op: &String) -> (r: Option<TextOp>)
    ensures
        r == text_op_of(op@),
{
    if is_text(op, "subscribe") {
        Some(TextOp::Subscribe)
    } else if is_text(op, "unsubscribe") {
        Some(TextOp::Unsubscribe)
    } else if is_text(op, "advertise") {
        Some(TextOp::Advertise)
    } else if is_text(op, "unadvertise") {
        Some(TextOp::Unadvertise)
    } else if is_text(op, "getParameters") {
        Some(TextOp::GetParameters)
    } else if is_text(op, "setParameters") {
        Some(TextOp::SetParameters)
    } else if is_text(op, "subscribeParameterUpdates") {
        Some(TextOp::SubscribeParameterUpdates)
    } else if is_text(op, "unsubscribeParameterUpdates") {
        Some(TextOp::UnsubscribeParameterUpdates)
    } else {
        None
    }
}

/// What a message is, given what was read as its `op` member.
pub fn classify_text_input(m: JsonMember) -> (r: TextInput)
    ensures
        r@ == classify_spec(m@),
{
    match m {
        JsonMember::Unparsable => TextInput::Unparsable,
        JsonMember::NotAnObject => TextInput::NotAnObject,
        JsonMember::Absent => TextInput::NoOp,
        JsonMember::NotText => TextInput::NoOp,
        JsonMember::Text(op) => match text_op(&op) {
            Some(t) => TextInput::Request(t),
            None => TextInput::UnknownOp(op),
        },
    }
}

/// What the text message `text` from a client is: its `op` member is read
/// as JSON, and names the request.
pub fn text_input_kind(text: &str) -> (r: TextInput)
    ensures
        r@ == classify_spec(json_member(text@, "op"@)),
{
    let m = read_json_member(text, "op");
    classify_text_input(m)
}

} // verus!
