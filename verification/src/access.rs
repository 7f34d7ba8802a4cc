//! Who may see what: the check that every request passes.

use vstd::prelude::*;

use crate::auth::{
    cookie_among, good_from, has_token_shape, is_token_text, session_from_cookie, session_ok,
    the_cookie_gives_the_token_back, SESSION_TTL_SECS,
};
use crate::json::JsonView;
use crate::reply::{error_reply, json_error, Reply, ReplyView};
use crate::state::AppState;
use crate::text::{begins, chars_of, cut, lemma_find, same, split, starts_with};

verus! {

/// The prefixes of what is served without a session.
///
/// The endpoints that sign in and out have to be among them. The icon and the
/// manifest are, because the browser fetches them with the login page.
pub open spec fn public_prefixes() -> Seq<Seq<char>> {
    seq![
        "/api/auth"@,
        "/assets"@,
        "/login"@,
        "/icon.svg"@,
        "/manifest.webmanifest"@,
        "/favicon.ico"@,
    ]
}

/// The prefixes of what is served without a session.
pub const PUBLIC_PREFIXES: [&'static str; 6] = [
    "/api/auth",
    "/assets",
    "/login",
    "/icon.svg",
    "/manifest.webmanifest",
    "/favicon.ico",
];

/// Does the path fall under the prefix, by whole segments?
pub open spec fn falls_under(path: Seq<char>, prefix: Seq<char>) -> bool {
    path == prefix || begins(path, prefix + seq!['/'])
}

/// Does the path fall under the public prefix? Whole segments are compared, so
/// that `/login` covers neither `/loginfoo` nor `/api/auth/login`.
pub fn path_is_public(path: &str, prefix: &str) -> (r: bool)
    ensures
        r == falls_under(path@, prefix@),
{
    if same(path, prefix) {
        return true;
    }
    let under = starts_with(path, prefix);
    let v = chars_of(path);
    let n: usize = chars_of(prefix).len();
    let ghost full = prefix@ + seq!['/'];
    if under && v.len() > n && v[n] == '/' {
        assert(path@.take(full.len() as int) =~= full) by {
            assert(path@.take(prefix@.len() as int) =~= prefix@);
            assert forall|i: int| 0 <= i < full.len() implies path@[i] == full[i] by {
                if i < prefix@.len() {
                    assert(path@.take(prefix@.len() as int)[i] == prefix@[i]);
                }
            }
        }
        true
    } else {
        assert(!begins(path@, full)) by {
            if begins(path@, full) {
                assert(path@.take(full.len() as int)[prefix@.len() as int] == '/');
                assert(path@.take(prefix@.len() as int) =~= prefix@) by {
                    assert forall|i: int| 0 <= i < prefix@.len() implies path@[i] == prefix@[i] by {
                        assert(path@.take(full.len() as int)[i] == full[i]);
                    }
                }
            }
        }
        false
    }
}

/// Is the path served without a session?
pub open spec fn is_open(path: Seq<char>) -> bool {
    exists|i: int|
        0 <= i < public_prefixes().len() && falls_under(path, #[trigger] public_prefixes()[i])
}

/// Is the path served without a session?
pub fn served_openly(path: &str) -> (r: bool)
    ensures
        r == is_open(path@),
{
    let ghost all = public_prefixes();
    let n: usize = PUBLIC_PREFIXES.len();
    assert(n == 6);
    assert forall|j: int| 0 <= j < 6 implies (#[trigger] PUBLIC_PREFIXES@[j])@ == all[j] by {}
    let mut i: usize = 0;
    while i < n
        invariant
            i <= n,
            n == 6,
            all == public_prefixes(),
            all.len() == 6,
            PUBLIC_PREFIXES@.len() == 6,
            forall|j: int| 0 <= j < 6 ==> (#[trigger] PUBLIC_PREFIXES@[j])@ == all[j],
            forall|j: int| 0 <= j < i ==> !falls_under(path@, #[trigger] all[j]),
        decreases n - i,
    {
        if path_is_public(path, PUBLIC_PREFIXES[i]) {
            assert(falls_under(path@, public_prefixes()[i as int]));
            return true;
        }
        i = i + 1;
    }
    false
}

/// The reply that sends a browser to the login page.
pub open spec fn login_redirect() -> ReplyView {
    ReplyView { status: 302, headers: seq![("location"@, "/login"@)], body: None }
}

/// What is answered to a request that may not pass.
pub open spec fn denial(path: Seq<char>) -> ReplyView {
    if begins(path, "/api/"@) {
        error_reply(401, "Unauthorized"@)
    } else {
        login_redirect()
    }
}

/// What is answered to a request that may not pass: a program gets an error that
/// it can read, a browser is sent to where it can sign in.
pub fn refuse(path: &str) -> (r: Reply)
    ensures
        r@ == denial(path@),
{
    if starts_with(path, "/api/") {
        return json_error(401, "Unauthorized");
    }
    let none: Vec<(String, String)> = Vec::new();
    let r = Reply { status: 302, headers: none, body: None };
    let ghost bare = r@;
    let r = r.with_header("location", "/login");
    assert(bare.headers.push(("location"@, "/login"@)) =~= seq![("location"@, "/login"@)]);
    r
}

/// May a request pass whose session, where one is needed, is good or not?
pub open spec fn passes(needed: bool, path: Seq<char>, signed_in: bool) -> bool {
    !needed || is_open(path) || signed_in
}

/// The check of a request, given whether its session is good: nothing where it
/// passes, else the answer.
pub fn decide(needed: bool, path: &str, signed_in: bool) -> (r: Option<Reply>)
    ensures
        match r {
            None => passes(needed, path@, signed_in),
            Some(reply) => !passes(needed, path@, signed_in) && reply@ == denial(path@),
        },
{
    if !needed || signed_in || served_openly(path) {
        None
    } else {
        Some(refuse(path))
    }
}

/// Does the request carry a token that is good at that time?
pub open spec fn carries_session(state: AppState, cookies: Option<Seq<char>>, now: nat) -> bool {
    match (cookies, state.session_secret) {
        (Some(c), Some(secret)) => match cookie_among(split(c, ';')) {
            Some(token) => session_ok(token, secret@, now),
            None => false,
        },
        _ => false,
    }
}

/// Does the request carry a session cookie whose value has the shape of a token?
pub open spec fn carries_token(cookies: Option<Seq<char>>) -> bool {
    match cookies {
        Some(c) => match cookie_among(split(c, ';')) {
            Some(token) => has_token_shape(token),
            None => false,
        },
        None => false,
    }
}

/// What is answered to a request at that time: nothing where it passes.
pub open spec fn checked(
    state: AppState,
    path: Seq<char>,
    cookies: Option<Seq<char>>,
    now: nat,
) -> Option<ReplyView> {
    if passes(state.password_hash is Some, path, carries_session(state, cookies, now)) {
        None
    } else {
        Some(denial(path))
    }
}

/// The check of a request with its cookie header: nothing where it passes, else
/// the answer. A session is only looked at where it is needed. Whatever the time,
/// a request without anything like a token does not pass then.
pub fn require_session(state: &AppState, path: &str, cookies: Option<&str>) -> (r: Option<Reply>)
    ensures
        state.password_hash is None || is_open(path@) ==> r is None,
        state.password_hash is Some && !is_open(path@) && !carries_token(text_of_header(cookies))
            ==> reply_of(r) == Some(denial(path@)),
        exists|now: u64|
            reply_of(r) == #[trigger] checked(*state, path@, text_of_header(cookies), now as nat),
{
    let needed = state.auth_enabled();
    if !needed || served_openly(path) {
        assert(checked(*state, path@, text_of_header(cookies), 0u64 as nat) is None);
        return None;
    }
    let token = match cookies {
        Some(c) => session_from_cookie(c),
        None => None,
    };
    let signed_in = match &token {
        Some(t) => state.verify_session(t.as_str()),
        None => false,
    };
    let r = decide(needed, path, signed_in);
    proof {
        let now: u64 = if token is Some && state.session_secret is Some {
            choose|now: u64|
                signed_in == #[trigger] session_ok(
                    token->0@,
                    state.session_secret->0@,
                    now as nat,
                )
        } else {
            0
        };
        assert(reply_of(r) == checked(*state, path@, text_of_header(cookies), now as nat));
    }
    r
}

/// The meaning of an answer that may be missing.
pub open spec fn reply_of(r: Option<Reply>) -> Option<ReplyView> {
    match r {
        Some(reply) => Some(reply@),
        None => None,
    }
}

/// The text of a header that may be missing.
pub open spec fn text_of_header(h: Option<&str>) -> Option<Seq<char>> {
    match h {
        Some(t) => Some(t@),
        None => None,
    }
}

/// Whoever signs in can go everywhere: with the cookie of a session every request
/// passes, from the second of its issue until its time has run out.
pub proof fn signing_in_opens_every_path(
    state: AppState,
    token: Seq<char>,
    issued: u64,
    now: nat,
    path: Seq<char>,
)
    requires
        state.session_secret is Some,
        good_from(token, state.session_secret->0@, issued),
        is_token_text(token),
        issued <= now < issued + SESSION_TTL_SECS,
    ensures
        checked(state, path, Some("mindash_session="@ + token), now) is None,
{
    the_cookie_gives_the_token_back(token);
    assert(session_ok(token, state.session_secret->0@, now));
}

/// Whoever signs out can go nowhere but to what is open to everyone: with the
/// emptied cookie no other request passes.
pub proof fn signing_out_closes_every_path(state: AppState, now: nat, path: Seq<char>)
    requires
        state.password_hash is Some,
        !is_open(path),
    ensures
        checked(state, path, Some("mindash_session="@), now) == Some(denial(path)),
{
    let none = Seq::<char>::empty();
    the_cookie_gives_the_token_back(none);
    assert("mindash_session="@ + none =~= "mindash_session="@);
    lemma_find(none, '.');
    assert(cut(none, '.') is None);
}

/// The endpoints that sign in and out are served to everyone: they issue and
/// clear the session.
pub proof fn signing_in_needs_no_session(rest: Seq<char>)
    ensures
        is_open("/api/auth/"@ + rest),
{
    reveal_strlit("/api/auth/");
    reveal_strlit("/api/auth");
    let path = "/api/auth/"@ + rest;
    assert("/api/auth"@ + seq!['/'] =~= "/api/auth/"@);
    assert(path.take("/api/auth/"@.len() as int) =~= "/api/auth/"@);
    assert(falls_under(path, public_prefixes()[0]));
}

/// What follows a public prefix without a slash between is not covered by it.
pub proof fn a_longer_segment_is_not_covered(prefix: Seq<char>, rest: Seq<char>)
    requires
        rest.len() > 0,
        rest[0] != '/',
    ensures
        !falls_under(prefix + rest, prefix),
{
    let path = prefix + rest;
    assert(path.len() != prefix.len());
    if begins(path, prefix + seq!['/']) {
        assert(path.take(prefix.len() as int + 1)[prefix.len() as int] == '/');
        assert(path[prefix.len() as int] == rest[0]);
    }
}

/// Without a password every request passes; with one, a request that is not
/// served openly passes exactly when its session is good.
pub proof fn a_password_closes_everything_else(path: Seq<char>, signed_in: bool)
    ensures
        passes(false, path, signed_in),
        !is_open(path) ==> passes(true, path, signed_in) == signed_in,
{
}

/// The page that a browser is sent to is served to everyone, so that it is not
/// sent there again.
pub proof fn the_login_page_is_open()
    ensures
        is_open("/login"@),
{
    assert(falls_under("/login"@, public_prefixes()[2]));
}

/// What is served without a session is what lies at or below six places: signing
/// in and out, the assets, the login page, the two icons and the manifest. Nothing
/// else is.
pub proof fn six_places_are_open(path: Seq<char>)
    ensures
        is_open(path) <==> falls_under(path, "/api/auth"@) || falls_under(path, "/assets"@)
            || falls_under(path, "/login"@) || falls_under(path, "/icon.svg"@) || falls_under(
            path,
            "/manifest.webmanifest"@,
        ) || falls_under(path, "/favicon.ico"@),
{
    let p = public_prefixes();
    assert(p[0] == "/api/auth"@ && p[1] == "/assets"@ && p[2] == "/login"@);
    assert(p[3] == "/icon.svg"@ && p[4] == "/manifest.webmanifest"@ && p[5] == "/favicon.ico"@);
}

/// A path falls under a prefix where it is the prefix, or goes on behind it with a
/// slash.
pub proof fn whole_segments_are_compared(prefix: Seq<char>, rest: Seq<char>)
    ensures
        falls_under(prefix, prefix),
        falls_under(prefix + seq!['/'] + rest, prefix),
{
    let p = prefix + seq!['/'] + rest;
    assert(p.subrange(0, (prefix + seq!['/']).len() as int) =~= prefix + seq!['/']);
}

/// A program that may not pass is told so with a status that it can read; a
/// browser is sent to the login page.
pub proof fn a_refusal_suits_who_asks(path: Seq<char>)
    ensures
        begins(path, "/api/"@) ==> denial(path).status == 401 && denial(path).headers.len() == 0
            && (denial(path).body matches Some(v) && v.get("success"@) == Some(
            JsonView::Bool(false),
        ) && v.get("error"@) == Some(JsonView::Str("Unauthorized"@))),
        !begins(path, "/api/"@) ==> denial(path).status == 302 && denial(path).headers == seq![
            ("location"@, "/login"@),
        ] && denial(path).body is None,
{
    broadcast use crate::json::reading_behind_setting;

    reveal_strlit("/api/");
    reveal_strlit("success");
    reveal_strlit("error");
    reveal_strlit("Unauthorized");
    reveal_strlit("location");
    reveal_strlit("/login");
    assert("/api/"@.len() == 5 && "success"@.len() == 7 && "error"@.len() == 5);
    assert("Unauthorized"@.len() == 12 && "location"@.len() == 8 && "/login"@.len() == 6);
    assert("/api/"@[0] == '/');
    assert("error"@[0] == 'e');
}

/// The check of a request lets it pass where no password is set, where its path
/// is open, or where its session is good, and denies it everywhere else.
pub proof fn a_request_is_checked(
    state: AppState,
    path: Seq<char>,
    cookies: Option<Seq<char>>,
    now: nat,
)
    ensures
        state.password_hash is None ==> checked(state, path, cookies, now) is None,
        is_open(path) ==> checked(state, path, cookies, now) is None,
        carries_session(state, cookies, now) ==> checked(state, path, cookies, now) is None,
        state.password_hash is Some && !is_open(path) && !carries_session(state, cookies, now)
            ==> checked(state, path, cookies, now) == Some(denial(path)),
        cookies is None ==> !carries_session(state, cookies, now) && !carries_token(cookies),
        state.session_secret is None ==> !carries_session(state, cookies, now),
{
}

} // verus!
