//! Replies to HTTP requests.

use vstd::prelude::*;

use crate::json::{field, with_field, Fields, Json, JsonMap, JsonView};

verus! {

/// A reply: its status, the headers that are set, and a JSON body where there is
/// one.
#[derive(Debug)]
pub struct Reply {
    pub status: u16,
    pub headers: Vec<(String, String)>,
    pub body: Option<Json>,
}

/// The meaning of a [`Reply`].
#[verifier::ext_equal]
pub struct ReplyView {
    pub status: u16,
    pub headers: Seq<(Seq<char>, Seq<char>)>,
    pub body: Option<JsonView>,
}

/// The texts of a list of headers.
pub open spec fn header_views(v: Seq<(String, String)>) -> Seq<(Seq<char>, Seq<char>)> {
    Seq::new(v.len(), |i: int| (v[i].0@, v[i].1@))
}

impl View for Reply {
    type V = ReplyView;

    open spec fn view(&self) -> ReplyView {
        ReplyView {
            status: self.status,
            headers: header_views(self.headers@),
            body: match self.body {
                Some(j) => Some(j@),
                None => None,
            },
        }
    }
}

/// A reply with a JSON body and no headers of its own.
pub open spec fn plain_reply(status: u16, body: JsonView) -> ReplyView {
    ReplyView { status, headers: seq![], body: Some(body) }
}

/// Members that say that the request succeeded.
pub open spec fn success() -> Fields {
    with_field(seq![], "success"@, JsonView::Bool(true))
}

/// The reply that says nothing but that the request succeeded.
pub open spec fn done_reply() -> ReplyView {
    plain_reply(200, JsonView::Object(success()))
}

/// The reply that says why a request failed.
pub open spec fn error_reply(status: u16, message: Seq<char>) -> ReplyView {
    plain_reply(
        status,
        JsonView::Object(
            with_field(
                with_field(seq![], "success"@, JsonView::Bool(false)),
                "error"@,
                JsonView::Str(message),
            ),
        ),
    )
}

impl Reply {
    /// A reply with a JSON body.
    pub fn json(status: u16, body: Json) -> (r: Reply)
        ensures
            r@ == plain_reply(status, body@),
    {
        let r = Reply { status, headers: Vec::new(), body: Some(body) };
        assert(r@ =~= plain_reply(status, body@));
        r
    }

    /// The reply that says nothing but that the request succeeded.
    pub fn done() -> (r: Reply)
        ensures
            r@ == done_reply(),
    {
        Reply::json(200, Json::object(ok_map()))
    }

    /// The reply with a header added.
    pub fn with_header(self, name: &str, value: &str) -> (r: Reply)
        ensures
            r@ == (ReplyView { headers: self@.headers.push((name@, value@)), ..self@ }),
    {
        let ghost before = self@;
        let mut r = self;
        r.headers.push((String::from_str(name), String::from_str(value)));
        assert(r@.headers =~= before.headers.push((name@, value@)));
        r
    }
}

/// Members that say that the request succeeded.
pub fn ok_map() -> (r: JsonMap)
    ensures
        r@ == success(),
        r.wf(),
{
    let mut m = JsonMap::new();
    m.insert("success", Json::Bool(true));
    m
}

/// The reply that says why a request failed.
pub fn json_error(status: u16, message: &str) -> (r: Reply)
    ensures
        r@ == error_reply(status, message@),
{
    let mut m = JsonMap::new();
    m.insert("success", Json::Bool(false));
    m.insert("error", Json::text(message));
    Reply::json(status, Json::object(m))
}

/// A member that is put beside the success is read, and the success still is.
pub proof fn success_can_carry_data(key: Seq<char>, data: JsonView)
    requires
        key != "success"@,
    ensures
        field(with_field(success(), key, data), key) == Some(data),
        field(with_field(success(), key, data), "success"@) == Some(JsonView::Bool(true)),
        success().len() == 1,
{
    broadcast use crate::json::reading_behind_setting;

    reveal_strlit("success");
}

/// A reply keeps its status and its body and sets no header. One that succeeded
/// says so; one that failed says so, and why.
pub proof fn a_reply_says_how_it_went(status: u16, body: JsonView, message: Seq<char>)
    ensures
        plain_reply(status, body).status == status,
        plain_reply(status, body).body == Some(body),
        plain_reply(status, body).headers.len() == 0,
        field(success(), "success"@) == Some(JsonView::Bool(true)),
        done_reply().status == 200,
        done_reply().body matches Some(b) && b.get("success"@) == Some(JsonView::Bool(true)),
        error_reply(status, message).status == status,
        error_reply(status, message).body matches Some(b) && b.get("success"@) == Some(
            JsonView::Bool(false),
        ) && b.get("error"@) == Some(JsonView::Str(message)),
{
    broadcast use crate::json::reading_behind_setting;

    reveal_strlit("success");
    reveal_strlit("error");
    assert("success"@.len() == 7 && "error"@.len() == 5);
}

/// A reply means what it holds: its status, its headers in their order, and its
/// body.
pub proof fn a_reply_means_what_it_holds(r: Reply, i: int)
    ensures
        r@.status == r.status,
        r@.headers.len() == r.headers@.len(),
        0 <= i < r.headers@.len() ==> r@.headers[i].0 == r.headers@[i].0@ && r@.headers[i].1
            == r.headers@[i].1@,
        r.body is None <==> r@.body is None,
        r.body matches Some(j) ==> r@.body == Some(j@),
{
}

} // verus!
