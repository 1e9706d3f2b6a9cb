//! What the pool answers.

use crate::token::text_view;
use vstd::prelude::*;

verus! {

/// An answer: the status, the type of its content where it has some, and the content.
#[derive(Debug, PartialEq, Eq)]
pub struct Response {
    pub status: u16,
    pub content_type: Option<String>,
    pub body: String,
}

#[verifier::ext_equal]
pub struct ResponseView {
    pub status: u16,
    pub content_type: Option<Seq<char>>,
    pub body: Seq<char>,
}

impl View for Response {
    type V = ResponseView;

    open spec fn view(&self) -> ResponseView {
        ResponseView {
            status: self.status,
            content_type: text_view(self.content_type),
            body: self.body@,
        }
    }
}

/// Success, with nothing in it.
pub open spec fn empty_response() -> ResponseView {
    ResponseView { status: 200, content_type: None, body: Seq::empty() }
}

/// A refusal, with nothing in it.
pub open spec fn forbidden_response() -> ResponseView {
    ResponseView { status: 403, content_type: None, body: Seq::empty() }
}

/// Success, with JSON in it.
pub open spec fn json_response(body: Seq<char>) -> ResponseView {
    ResponseView { status: 200, content_type: Some("application/json"@), body }
}

impl Response {
    pub fn empty() -> (r: Response)
        ensures
            r@ == empty_response(),
    {
        Response { status: 200, content_type: None, body: String::new() }
    }

    pub fn forbidden() -> (r: Response)
        ensures
            r@ == forbidden_response(),
    {
        Response { status: 403, content_type: None, body: String::new() }
    }

    pub fn json(body: String) -> (r: Response)
        ensures
            r@ == json_response(body@),
    {
        Response { status: 200, content_type: Some("application/json".to_owned()), body }
    }
}

/// An answer carries what is put into it: JSON goes out as it is, with its type, as a success; a
/// refusal and an empty answer carry nothing, and only the refusal is one.
pub proof fn law_answers_carry_their_body(body: Seq<char>)
    ensures
        json_response(body).body == body,
        json_response(body).status == 200,
        json_response(body).content_type == Some("application/json"@),
        forbidden_response().status == 403,
        forbidden_response().body.len() == 0,
        empty_response().status == 200,
        empty_response().body.len() == 0,
        forbidden_response().content_type is None,
        empty_response().content_type is None,
{
}

/// The view of an answer shows its status, its type and its content.
pub proof fn law_response_view_is_whole(r: Response)
    ensures
        r@.status == r.status,
        r@.body == r.body@,
        r.content_type matches Some(t) ==> r@.content_type == Some(t@),
        r.content_type is None ==> r@.content_type is None,
{
}

} // verus!
