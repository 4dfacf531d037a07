//! Messages between voters and the commission.

use crate::json::{
    json_document, json_object, json_string, members_of, object_text, parse_document, string_text,
    Document, Member,
};
use crate::text::same_text;
use vstd::prelude::*;
use vstd::utf8::encode_utf8;

verus! {

/// A request from a voter.
#[derive(Debug, Clone)]
pub enum InboundMessage {
    Register { election_id: String, registration_token: String },
    RequestToken { election_id: String, blinded_nonce: String },
    CastVote { election_id: String, candidate_ids: Vec<u8>, h_n: String, token: String },
}

/// A reply that reports success.
#[derive(Debug, Clone)]
pub struct OkResponse {
    pub status: &'static str,
    pub action: &'static str,
    pub blind_signature: Option<String>,
    pub request_id: Option<String>,
}

/// A reply that reports an error.
#[derive(Debug, Clone)]
pub struct ErrorResponse {
    pub status: &'static str,
    pub code: &'static str,
    pub message: String,
    pub request_id: Option<String>,
}

/// A reply to a voter.
#[derive(Debug, Clone)]
pub enum OutboundMessage {
    Success(OkResponse),
    Error(ErrorResponse),
}

/// The contents of an optional text.
pub open spec fn text_in(text: Option<String>) -> Option<Seq<char>> {
    match text {
        Some(t) => Some(t@),
        None => None,
    }
}

/// A member of a JSON object that is there only if it has a text.
pub open spec fn optional_member(key: Seq<char>, text: Option<Seq<char>>) -> Seq<
    (Seq<char>, Seq<char>),
> {
    match text {
        Some(t) => seq![(key, json_string(t))],
        None => Seq::empty(),
    }
}

/// Adds a member that is there only if it has a text.
fn push_optional(members: &mut Vec<Member>, key: &'static str, text: &Option<String>)
    ensures
        members_of(final(members)@) == members_of(old(members)@) + optional_member(
            key@,
            text_in(*text),
        ),
{
    match text {
        Some(t) => {
            members.push(Member { key, value: string_text(t.as_str()) });
        },
        None => {},
    }
    assert(members_of(members@) =~= members_of(old(members)@) + optional_member(
        key@,
        text_in(*text),
    ));
}

impl OutboundMessage {
    /// What a message says: its members on the wire, in their order. A success
    /// has its status, its action and, where there is one, a blind signature;
    /// an error has its status, its code and a message in words. Either ends
    /// with the request id, where there is one.
    pub open spec fn wire_members(self) -> Seq<(Seq<char>, Seq<char>)> {
        match self {
            OutboundMessage::Success(ok) => seq![
                ("status"@, json_string(ok.status@)),
                ("action"@, json_string(ok.action@)),
            ] + optional_member("blind_signature"@, text_in(ok.blind_signature))
                + optional_member("request_id"@, text_in(ok.request_id)),
            OutboundMessage::Error(error) => seq![
                ("status"@, json_string(error.status@)),
                ("code"@, json_string(error.code@)),
                ("message"@, json_string(error.message@)),
            ] + optional_member("request_id"@, text_in(error.request_id)),
        }
    }

    /// The request id that a message carries.
    pub open spec fn request_id(self) -> Option<Seq<char>> {
        match self {
            OutboundMessage::Success(ok) => text_in(ok.request_id),
            OutboundMessage::Error(error) => text_in(error.request_id),
        }
    }

    /// Whether this is the plain error of a code and a message.
    pub open spec fn is_error(self, code: Seq<char>, message: Seq<char>) -> bool {
        self matches OutboundMessage::Error(error) && error.status@ == "error"@ && error.code@
            == code && error.message@ == message && error.request_id is None
    }

    /// Whether this is the plain success of an action.
    pub open spec fn is_ok(self, action: Seq<char>) -> bool {
        self matches OutboundMessage::Success(ok) && ok.status@ == "ok"@ && ok.action@ == action
            && ok.blind_signature is None && ok.request_id is None
    }

    /// The success of an action.
    pub fn ok(action: &'static str) -> (message: Self)
        ensures
            message.is_ok(action@),
    {
        OutboundMessage::Success(
            OkResponse { status: "ok", action, blind_signature: None, request_id: None },
        )
    }

    /// The success of an action that hands out a blind signature.
    pub fn ok_with_signature(action: &'static str, blind_signature: String) -> (message: Self)
        ensures
            message matches OutboundMessage::Success(ok) && ok.status@ == "ok"@ && ok.action@ == action@
                && ok.blind_signature == Some(blind_signature) && ok.request_id is None,
    {
        OutboundMessage::Success(
            OkResponse {
                status: "ok",
                action,
                blind_signature: Some(blind_signature),
                request_id: None,
            },
        )
    }

    /// An error with its code and a message in words.
    pub fn error(code: &'static str, message: &str) -> (reply: Self)
        ensures
            reply.is_error(code@, message@),
    {
        OutboundMessage::Error(
            ErrorResponse { status: "error", code, message: message.to_owned(), request_id: None },
        )
    }

    /// Puts the request id of a voter on a reply, in place of any that is
    /// there, so that the voter can tell which request it answers.
    pub fn with_request_id(self, request_id: Option<String>) -> (message: Self)
        ensures
            match self {
                OutboundMessage::Success(ok) => message == OutboundMessage::Success(
                    OkResponse { request_id, ..ok },
                ),
                OutboundMessage::Error(error) => message == OutboundMessage::Error(
                    ErrorResponse { request_id, ..error },
                ),
            },
            message.request_id() == text_in(request_id),
    {
        match self {
            OutboundMessage::Success(ok) => OutboundMessage::Success(
                OkResponse {
                    status: ok.status,
                    action: ok.action,
                    blind_signature: ok.blind_signature,
                    request_id,
                },
            ),
            OutboundMessage::Error(error) => OutboundMessage::Error(
                ErrorResponse {
                    status: error.status,
                    code: error.code,
                    message: error.message,
                    request_id,
                },
            ),
        }
    }

    /// The message as JSON. What is absent is left out.
    pub fn to_json(&self) -> (json: String)
        ensures
            json@ == json_object(self.wire_members()),
    {
        let mut members: Vec<Member> = Vec::new();
        match self {
            OutboundMessage::Success(ok) => {
                members.push(Member { key: "status", value: string_text(ok.status) });
                members.push(Member { key: "action", value: string_text(ok.action) });
                push_optional(&mut members, "blind_signature", &ok.blind_signature);
                push_optional(&mut members, "request_id", &ok.request_id);
            },
            OutboundMessage::Error(error) => {
                members.push(Member { key: "status", value: string_text(error.status) });
                members.push(Member { key: "code", value: string_text(error.code) });
                members.push(Member { key: "message", value: string_text(error.message.as_str()) });
                push_optional(&mut members, "request_id", &error.request_id);
            },
        }
        assert(members_of(members@) =~= self.wire_members());
        object_text(&members)
    }
}

/// Longest `request_id`, in bytes, that a reply will echo. Anything larger is
/// treated as absent.
pub const MAX_REQUEST_ID_LEN: usize = 64;

/// The text that the first member of this key holds.
pub open spec fn text_of_member(
    members: Seq<(Seq<char>, Option<Seq<char>>)>,
    key: Seq<char>,
) -> Option<Seq<char>>
    decreases members.len(),
{
    if members.len() == 0 {
        None
    } else if members[0].0 == key {
        members[0].1
    } else {
        text_of_member(members.drop_first(), key)
    }
}

/// The request id in a document: the text of its `request_id` member, if it is
/// an object that has one and the text is not too long to be echoed.
pub open spec fn request_id_in(
    document: Option<Seq<(Seq<char>, Option<Seq<char>>)>>,
) -> Option<Seq<char>> {
    match document {
        Some(members) => match text_of_member(members, "request_id"@) {
            Some(id) => if encode_utf8(id).len() <= MAX_REQUEST_ID_LEN {
                Some(id)
            } else {
                None
            },
            None => None,
        },
        None => None,
    }
}

/// Reads the request id out of a parsed document. It is found also where the
/// document is no known request, so that errors can be told apart too.
pub fn request_id_from_value(value: &Document) -> (request_id: Option<String>)
    ensures
        text_in(request_id) == request_id_in(value@),
{
    match value {
        Document::Object(entries) => {
            let ghost members = value@->0;
            let mut i: usize = 0;
            assert(members.skip(0) =~= members);
            while i < entries.len()
                invariant
                    i <= entries@.len(),
                    value@ == Some(members),
                    members == entries@.map_values(
                        |entry: (String, Option<String>)| crate::json::entry_view(entry),
                    ),
                    text_of_member(members, "request_id"@) == text_of_member(
                        members.skip(i as int),
                        "request_id"@,
                    ),
                decreases entries@.len() - i,
            {
                assert(members.skip(i as int)[0] == crate::json::entry_view(entries@[i as int]));
                if same_text(entries[i].0.as_str(), "request_id") {
                    return match &entries[i].1 {
                        Some(id) => if id.as_str().as_bytes().len() <= MAX_REQUEST_ID_LEN {
                            Some(id.clone())
                        } else {
                            None
                        },
                        None => None,
                    };
                }
                assert(members.skip(i as int).drop_first() =~= members.skip(i + 1));
                i += 1;
            }
            None
        },
        Document::Other => None,
    }
}

/// Reads the request id out of the text of a request.
pub fn extract_request_id(content: &str) -> (request_id: Option<String>)
    ensures
        text_in(request_id) == match json_document(content@) {
            Some(document) => request_id_in(document),
            None => None,
        },
{
    match parse_document(content) {
        Some(document) => request_id_from_value(&document),
        None => None,
    }
}

/// A reply carries just the request id that was put on it.
pub proof fn law_request_id_is_echoed(message: OutboundMessage)
    ensures
        message.request_id() matches Some(id) ==> message.wire_members().contains(
            ("request_id"@, json_string(id)),
        ),
        message.request_id() is None ==> forall|i: int|
            0 <= i < message.wire_members().len() ==> (#[trigger] message.wire_members()[i]).0
                != "request_id"@,
{
    reveal_strlit("status");
    reveal_strlit("action");
    reveal_strlit("blind_signature");
    reveal_strlit("code");
    reveal_strlit("message");
    reveal_strlit("request_id");
    assert("status"@.len() == 6 && "action"@.len() == 6 && "blind_signature"@.len() == 15
        && "code"@.len() == 4 && "message"@.len() == 7 && "request_id"@.len() == 10);
    match message.request_id() {
        Some(id) => {
            let members = message.wire_members();
            assert(members[members.len() - 1] == ("request_id"@, json_string(id)));
        },
        None => {},
    }
}

/// No request id that is read out of a document is longer than what may be
/// echoed.
pub proof fn law_request_id_is_short(document: Option<Seq<(Seq<char>, Option<Seq<char>>)>>)
    ensures
        request_id_in(document) matches Some(id) ==> encode_utf8(id).len() <= MAX_REQUEST_ID_LEN,
{
}

} // verus!
