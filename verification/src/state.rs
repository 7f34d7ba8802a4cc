//! What the server keeps in memory: the configuration, the credentials, the
//! cache of fetched data, and the count of changes.

use vstd::prelude::*;
use vstd::utf8::*;

use crate::auth::{
    self, bound_to, good_from, has_token_shape, is_token_text, password_matches, session_ok,
    session_token,
};
use crate::config::Config;
use crate::json::{with_field, Json, JsonMap, JsonView};
use crate::numbers::hex_text;
use crate::text::{same, trim, trimmed};

verus! {

// ---------------------------------------------------------------------------
// The cache
// ---------------------------------------------------------------------------

/// Fetched data and when it was fetched, in microseconds on a clock that never
/// goes back.
#[derive(Debug)]
pub struct Cached {
    pub at: u128,
    pub value: Json,
}

/// The cache: each key once.
#[derive(Debug)]
pub struct Cache {
    pub entries: Vec<(String, Cached)>,
}

/// The meaning of a [`Cache`]: keys with the time and the value, in no order that
/// matters.
pub type CacheView = Seq<(Seq<char>, (u128, JsonView))>;

impl View for Cache {
    type V = CacheView;

    open spec fn view(&self) -> CacheView {
        Seq::new(
            self.entries@.len(),
            |i: int|
                (self.entries@[i].0@, (self.entries@[i].1.at, self.entries@[i].1.value@)),
        )
    }
}

/// What the cache holds under a key.
pub open spec fn held(c: CacheView, key: Seq<char>) -> Option<(u128, JsonView)>
    decreases c.len(),
{
    if c.len() == 0 {
        None
    } else if c[0].0 == key {
        Some(c[0].1)
    } else {
        held(c.drop_first(), key)
    }
}

/// The cache without a key.
pub open spec fn dropped(c: CacheView, key: Seq<char>) -> CacheView
    decreases c.len(),
{
    if c.len() == 0 {
        c
    } else if c[0].0 == key {
        dropped(c.drop_first(), key)
    } else {
        seq![c[0]] + dropped(c.drop_first(), key)
    }
}

/// Does each key stand in the cache once?
pub open spec fn each_key_once(c: CacheView) -> bool {
    forall|i: int, j: int| 0 <= i < j < c.len() ==> #[trigger] c[i].0 != #[trigger] c[j].0
}

/// Is data that was fetched `at` that time still to be used `now`?
pub open spec fn still_fresh(at: u128, now: u128, ttl: u128) -> bool {
    (if now >= at {
        now - at
    } else {
        0
    }) < ttl
}

/// The value marked as stale, where it is an object.
pub open spec fn marked_stale(v: JsonView) -> JsonView {
    match v {
        JsonView::Object(m) => JsonView::Object(with_field(m, "stale"@, JsonView::Bool(true))),
        _ => v,
    }
}

/// What is served when fetching fails: the old data, marked as stale, or the
/// error where there is none.
pub open spec fn served_instead(c: CacheView, key: Seq<char>, error: Seq<char>) -> JsonView {
    match held(c, key) {
        Some((_, v)) => marked_stale(v),
        None => JsonView::Object(with_field(seq![], "error"@, JsonView::Str(error))),
    }
}

/// A key that was dropped is not held, and every other key is held as before.
pub proof fn dropping_forgets_one_key(c: CacheView, key: Seq<char>, other: Seq<char>)
    ensures
        held(dropped(c, key), key) is None,
        other != key ==> held(dropped(c, key), other) == held(c, other),
    decreases c.len(),
{
    if c.len() > 0 {
        let t = c.drop_first();
        dropping_forgets_one_key(t, key, other);
        if c[0].0 != key {
            assert(dropped(c, key).drop_first() =~= dropped(t, key));
        }
    }
}

/// Dropping a key leaves none of it and adds none, and each key stands once in
/// what is left of a cache where it did.
pub proof fn dropping_keeps_keys_single(c: CacheView, key: Seq<char>)
    requires
        each_key_once(c),
    ensures
        each_key_once(dropped(c, key)),
        forall|i: int|
            0 <= i < dropped(c, key).len() ==> (#[trigger] dropped(c, key)[i]).0 != key
                && c.contains(dropped(c, key)[i]),
    decreases c.len(),
{
    if c.len() > 0 {
        let t = c.drop_first();
        assert forall|i: int, j: int| 0 <= i < j < t.len() implies #[trigger] t[i].0
            != #[trigger] t[j].0 by {
            assert(c[i + 1].0 != c[j + 1].0);
        }
        dropping_keeps_keys_single(t, key);
        let rest = dropped(t, key);
        let out = dropped(c, key);
        assert forall|i: int| 0 <= i < rest.len() implies c.contains(#[trigger] rest[i])
            && rest[i].0 != c[0].0 by {
            let k = choose|k: int| 0 <= k < t.len() && t[k] == rest[i];
            assert(c[k + 1] == rest[i]);
            assert(c[0].0 != c[k + 1].0);
        }
        if c[0].0 != key {
            assert forall|i: int| 0 <= i < out.len() implies (#[trigger] out[i]).0 != key
                && c.contains(out[i]) by {
                if i == 0 {
                    assert(c[0] == out[0]);
                } else {
                    assert(out[i] == rest[i - 1]);
                }
            }
            assert forall|i: int, j: int| 0 <= i < j < out.len() implies #[trigger] out[i].0
                != #[trigger] out[j].0 by {
                assert(out[j] == rest[j - 1]);
                if i > 0 {
                    assert(out[i] == rest[i - 1]);
                }
            }
        }
    }
}

/// What was stored is held, and every other key is held as before.
pub proof fn storing_changes_one_key(
    c: CacheView,
    key: Seq<char>,
    at: u128,
    value: JsonView,
    other: Seq<char>,
)
    ensures
        held(seq![(key, (at, value))] + dropped(c, key), key) == Some((at, value)),
        other != key ==> held(seq![(key, (at, value))] + dropped(c, key), other) == held(c, other),
{
    let out = seq![(key, (at, value))] + dropped(c, key);
    assert(out.drop_first() =~= dropped(c, key));
    dropping_forgets_one_key(c, key, other);
}

impl Cache {
    /// An empty cache.
    pub fn new() -> (r: Cache)
        ensures
            r@.len() == 0,
            each_key_once(r@),
    {
        Cache { entries: Vec::new() }
    }

    /// Where a key stands, if it does.
    fn find(&self, key: &str) -> (r: Option<usize>)
        ensures
            match r {
                Some(i) => i < self@.len() && held(self@, key@) == Some(self@[i as int].1),
                None => held(self@, key@) is None,
            },
    {
        let mut i: usize = 0;
        assert(self@.skip(0) =~= self@);
        while i < self.entries.len()
            invariant
                i <= self.entries@.len(),
                held(self@, key@) == held(self@.skip(i as int), key@),
            decreases self.entries.len() - i,
        {
            assert(self@.skip(i as int)[0] == self@[i as int]);
            assert(self@.skip(i as int).drop_first() =~= self@.skip(i + 1));
            if same(self.entries[i].0.as_str(), key) {
                return Some(i);
            }
            i = i + 1;
        }
        None
    }

    /// The data under a key, where it is fresh enough to be used.
    pub fn lookup(&self, key: &str, now: u128, ttl: u128) -> (r: Option<Json>)
        ensures
            match (r, held(self@, key@)) {
                (Some(v), Some((at, w))) => still_fresh(at, now, ttl) && v@ == w,
                (None, Some((at, _))) => !still_fresh(at, now, ttl),
                (r, None) => r is None,
            },
    {
        match self.find(key) {
            Some(i) => {
                let hit = &self.entries[i].1;
                let age: u128 = if now >= hit.at {
                    now - hit.at
                } else {
                    0
                };
                if age < ttl {
                    Some(hit.value.dup())
                } else {
                    None
                }
            },
            None => None,
        }
    }

    /// Forgets a key.
    pub fn remove(&mut self, key: &str)
        ensures
            final(self)@ == dropped(old(self)@, key@),
            each_key_once(old(self)@) ==> each_key_once(final(self)@),
    {
        let ghost all = self@;
        proof {
            if each_key_once(all) {
                dropping_keeps_keys_single(all, key@);
            }
        }
        let mut i: usize = 0;
        assert(all.skip(0) =~= all);
        assert(all.take(0) + dropped(all, key@) =~= dropped(all, key@));
        while i < self.entries.len()
            invariant
                i <= self.entries@.len(),
                all == old(self)@,
                self@.take(i as int) + dropped(self@.skip(i as int), key@) == dropped(all, key@),
            decreases self.entries.len() - i,
        {
            let ghost now = self@;
            let ghost rest = now.skip(i as int);
            assert(rest[0] == now[i as int]);
            assert(rest.drop_first() =~= now.skip(i + 1));
            if same(self.entries[i].0.as_str(), key) {
                let _ = self.entries.remove(i);
                assert(self@.take(i as int) =~= now.take(i as int));
                assert(self@.skip(i as int) =~= now.skip(i + 1));
            } else {
                assert(now.take(i as int) + (seq![now[i as int]] + dropped(now.skip(i + 1), key@))
                    =~= now.take(i + 1) + dropped(now.skip(i + 1), key@));
                i = i + 1;
            }
        }
        assert(self@.skip(i as int) =~= Seq::<(Seq<char>, (u128, JsonView))>::empty());
        assert(self@.take(i as int) + dropped(self@.skip(i as int), key@) =~= self@);
    }

    /// Keeps data under a key, in place of what was there.
    pub fn store(&mut self, key: &str, now: u128, value: &Json)
        ensures
            final(self)@ == seq![(key@, (now, value@))] + dropped(old(self)@, key@),
            held(final(self)@, key@) == Some((now, value@)),
            forall|other: Seq<char>|
                other != key@ ==> #[trigger] held(final(self)@, other) == held(old(self)@, other),
            each_key_once(old(self)@) ==> each_key_once(final(self)@),
    {
        self.remove(key);
        let ghost rest = self@;
        self.entries.insert(0, (String::from_str(key), Cached { at: now, value: value.dup() }));
        proof {
            assert(self@ =~= seq![(key@, (now, value@))] + rest);
            if each_key_once(old(self)@) {
                dropping_keeps_keys_single(old(self)@, key@);
                assert forall|i: int, j: int| 0 <= i < j < self@.len() implies #[trigger] self@[i].0
                    != #[trigger] self@[j].0 by {
                    assert(self@[j] == rest[j - 1]);
                    if i > 0 {
                        assert(self@[i] == rest[i - 1]);
                    }
                }
            }
            assert forall|other: Seq<char>| other != key@ implies #[trigger] held(self@, other)
                == held(old(self)@, other) by {
                storing_changes_one_key(old(self)@, key@, now, value@, other);
            }
            storing_changes_one_key(old(self)@, key@, now, value@, key@);
        }
    }

    /// What is served when fetching fails.
    pub fn fallback(&self, key: &str, error: &str) -> (r: Json)
        ensures
            r@ == served_instead(self@, key@, error@),
    {
        match self.find(key) {
            Some(i) => {
                let old = &self.entries[i].1.value;
                match old.as_object() {
                    Some(m) => {
                        let mut m = m.dup();
                        m.insert("stale", Json::Bool(true));
                        Json::object(m)
                    },
                    None => old.dup(),
                }
            },
            None => {
                let mut m = JsonMap::new();
                m.insert("error", Json::text(error));
                Json::object(m)
            },
        }
    }

    /// What is served after fetching: fresh data, which is kept, or where that
    /// failed what is served instead, with nothing changed.
    pub fn settle(&mut self, key: &str, now: u128, fetched: Result<Json, String>) -> (r: Json)
        ensures
            match fetched {
                Ok(v) => {
                    &&& r@ == v@
                    &&& held(final(self)@, key@) == Some((now, v@))
                    &&& forall|other: Seq<char>|
                        other != key@ ==> #[trigger] held(final(self)@, other) == held(
                            old(self)@,
                            other,
                        )
                },
                Err(e) => {
                    &&& r@ == served_instead(old(self)@, key@, e@)
                    &&& *final(self) == *old(self)
                },
            },
            each_key_once(old(self)@) ==> each_key_once(final(self)@),
    {
        match fetched {
            Ok(value) => {
                self.store(key, now, &value);
                value
            },
            Err(e) => self.fallback(key, e.as_str()),
        }
    }
}

/// Data that were fetched are served again without fetching until their time has
/// run out, and after that for as long as fetching fails, marked as stale.
pub proof fn kept_data_are_served_again(
    c: CacheView,
    key: Seq<char>,
    at: u128,
    value: JsonView,
    now: u128,
    ttl: u128,
    error: Seq<char>,
)
    requires
        held(c, key) == Some((at, value)),
        at <= now,
    ensures
        still_fresh(at, now, ttl) <==> now - at < ttl,
        served_instead(c, key, error) == marked_stale(value),
{
}

// ---------------------------------------------------------------------------
// The state
// ---------------------------------------------------------------------------

/// What the server keeps in memory.
#[derive(Debug)]
pub struct AppState {
    pub config: Config,
    /// Without a password, authentication is off.
    pub password_hash: Option<String>,
    pub session_secret: Option<Vec<u8>>,
    pub cache: Cache,
    /// Counts the changes of the configuration.
    pub revision: u64,
}

/// The secret that sessions are signed with; without one it is empty.
pub open spec fn signing_secret(s: AppState) -> Seq<u8> {
    match s.session_secret {
        Some(b) => b@,
        None => seq![],
    }
}

/// The count behind a count; behind the largest it starts over.
pub open spec fn next_count(count: u64) -> u64 {
    if count == u64::MAX {
        0
    } else {
        (count + 1) as u64
    }
}

/// A step in the life of the configuration: it is changed, or it turns out
/// whether a change could be stored.
pub enum Step {
    Change(spec_fn(Config) -> Config),
    Stored(bool),
}

/// Does the step lead from one state to the other? Nothing but the configuration
/// and the count is touched.
pub open spec fn leads_to(before: AppState, step: Step, after: AppState) -> bool {
    &&& after.config == match step {
        Step::Change(f) => f(before.config),
        Step::Stored(_) => before.config,
    }
    &&& after.revision == match step {
        Step::Stored(true) => next_count(before.revision),
        _ => before.revision,
    }
    &&& after.password_hash == before.password_hash
    &&& after.session_secret == before.session_secret
    &&& after.cache == before.cache
}

/// Does the change, called on a configuration, give what the function gives?
pub open spec fn carries_out<T, F: FnOnce(Config) -> (Config, T)>(
    change: F,
    f: spec_fn(Config) -> Config,
) -> bool {
    forall|c: Config, out: (Config, T)| #[trigger] change.ensures((c,), out) ==> out.0 == f(c)
}

/// The configuration after all the changes among the steps, each made once, in
/// their order.
pub open spec fn all_changes(steps: Seq<Step>, config: Config) -> Config
    decreases steps.len(),
{
    if steps.len() == 0 {
        config
    } else {
        let before = all_changes(steps.drop_last(), config);
        match steps.last() {
            Step::Change(f) => f(before),
            Step::Stored(_) => before,
        }
    }
}

/// How many of the steps tell that a change was stored.
pub open spec fn stored_changes(steps: Seq<Step>) -> nat
    decreases steps.len(),
{
    if steps.len() == 0 {
        0
    } else {
        stored_changes(steps.drop_last()) + match steps.last() {
            Step::Stored(true) => 1nat,
            _ => 0nat,
        }
    }
}

/// No change is lost: however the steps of many changes follow each other, the
/// configuration at the end is the first one with every change made to it once,
/// in their order. The count has grown by the number of changes that were stored,
/// starting over behind the largest count, and nothing else is different.
pub proof fn all_changes_land(states: Seq<AppState>, steps: Seq<Step>)
    requires
        states.len() == steps.len() + 1,
        forall|i: int|
            0 <= i < steps.len() ==> leads_to(states[i], #[trigger] steps[i], states[i + 1]),
    ensures
        states.last().config == all_changes(steps, states[0].config),
        states.last().revision == (states[0].revision + stored_changes(steps))
            % 0x1_0000_0000_0000_0000,
        states.last().password_hash == states[0].password_hash,
        states.last().session_secret == states[0].session_secret,
        states.last().cache == states[0].cache,
    decreases steps.len(),
{
    if steps.len() > 0 {
        let earlier = states.drop_last();
        let first = steps.drop_last();
        let n = first.len() as int;
        assert forall|i: int| 0 <= i < first.len() implies leads_to(
            earlier[i],
            #[trigger] first[i],
            earlier[i + 1],
        ) by {
            assert(first[i] == steps[i]);
        }
        all_changes_land(earlier, first);
        assert(earlier.last() == states[n]);
        assert(leads_to(states[n], steps[n], states[n + 1]));
    }
}

impl AppState {
    /// The state at the start, from the loaded configuration and the stored
    /// credentials. A missing secret is drawn at random and handed back, to be
    /// stored.
    pub fn new(config: Config, password_hash: Option<String>, secret: Option<String>) -> (r: (
        AppState,
        Option<String>,
    ))
        ensures
            r.0.config == config,
            r.0.password_hash == password_hash,
            r.0.cache@.len() == 0,
            each_key_once(r.0.cache@),
            r.0.revision == 1,
            r.0.session_secret is Some,
            match (secret, r.1) {
                (Some(s), None) => signing_secret(r.0) == encode_utf8(trimmed(s@)),
                (None, Some(s)) => signing_secret(r.0) == encode_utf8(s@) && exists|b: Seq<u8>|
                    b.len() == 32 && s@ == #[trigger] hex_text(b),
                _ => false,
            },
    {
        let (bytes, fresh) = match secret {
            Some(s) => {
                let t = trim(s.as_str());
                (t.as_str().as_bytes_vec(), None)
            },
            None => {
                let s = auth::random_secret();
                (s.as_str().as_bytes_vec(), Some(s))
            },
        };
        let state = AppState {
            config,
            password_hash,
            session_secret: Some(bytes),
            cache: Cache::new(),
            revision: 1,
        };
        (state, fresh)
    }

    /// Is a password needed?
    pub fn auth_enabled(&self) -> (r: bool)
        ensures
            r == (self.password_hash is Some),
    {
        self.password_hash.is_some()
    }

    /// Takes a new password hash into use.
    pub fn set_password(&mut self, hash: String)
        ensures
            final(self).password_hash == Some(hash),
            final(self).config == old(self).config,
            final(self).session_secret == old(self).session_secret,
            final(self).cache == old(self).cache,
            final(self).revision == old(self).revision,
    {
        self.password_hash = Some(hash);
    }

    /// Is this the password? Where none is set, any will do.
    pub fn verify_password(&self, password: &str) -> (r: bool)
        ensures
            r == match self.password_hash {
                None => true,
                Some(h) => password_matches(password@, h@),
            },
    {
        match &self.password_hash {
            None => true,
            Some(h) => auth::verify_password(password, h.as_str()),
        }
    }

    /// The token of a session that is issued now.
    pub fn issue_session(&self) -> (r: String)
        ensures
            exists|issued: u64|
                r@ == #[trigger] session_token(issued as nat, signing_secret(*self)) && good_from(
                    r@,
                    signing_secret(*self),
                    issued,
                ),
            bound_to(r@, signing_secret(*self)),
            is_token_text(r@),
    {
        let secret: Vec<u8> = match &self.session_secret {
            Some(b) => b.clone(),
            None => Vec::new(),
        };
        assert(secret@ =~= signing_secret(*self));
        let r = auth::issue_session(secret.as_slice());
        proof {
            let issued = choose|issued: u64|
                r@ == #[trigger] session_token(issued as nat, secret@) && good_from(
                    r@,
                    secret@,
                    issued,
                );
            assert(r@ == session_token(issued as nat, signing_secret(*self)));
        }
        r
    }

    /// Is the token good now? Without a secret no token is.
    pub fn verify_session(&self, token: &str) -> (r: bool)
        ensures
            match self.session_secret {
                Some(b) => exists|now: u64| r == #[trigger] session_ok(token@, b@, now as nat),
                None => !r,
            },
            r ==> has_token_shape(token@) && bound_to(token@, signing_secret(*self)),
    {
        match &self.session_secret {
            Some(b) => auth::verify_session(token, b.as_slice()),
            None => false,
        }
    }

    /// The configuration.
    pub fn config(&self) -> (r: &Config)
        ensures
            *r == self.config,
    {
        &self.config
    }

    /// The order of the dashboard's sections.
    pub fn section_order(&self) -> (r: &Vec<String>)
        ensures
            *r == self.config.settings.section_order,
    {
        &self.config.settings.section_order
    }

    /// The count of changes.
    pub fn revision(&self) -> (r: u64)
        ensures
            r == self.revision,
    {
        self.revision
    }

    /// Changes the configuration, and hands back what the change gives. What came
    /// of storing it is told to [`AppState::stored`].
    pub fn update_config<T, F: FnOnce(Config) -> (Config, T)>(&mut self, change: F) -> (r: T)
        requires
            change.requires((old(self).config,)),
        ensures
            change.ensures((old(self).config,), (final(self).config, r)),
            forall|f: spec_fn(Config) -> Config| #[trigger]
                carries_out(change, f) ==> leads_to(*old(self), Step::Change(f), *final(self)),
            final(self).password_hash == old(self).password_hash,
            final(self).session_secret == old(self).session_secret,
            final(self).cache == old(self).cache,
            final(self).revision == old(self).revision,
    {
        let mut config = Config::default();
        std::mem::swap(&mut config, &mut self.config);
        let (config, r) = change(config);
        self.config = config;
        r
    }

    /// Notes what came of storing the configuration: the count goes up when it
    /// was written, and only then. Behind the largest count it starts over.
    pub fn stored(&mut self, written: bool)
        ensures
            leads_to(*old(self), Step::Stored(written), *final(self)),
    {
        if written {
            self.revision = if self.revision == 0xffff_ffff_ffff_ffff {
                0
            } else {
                self.revision + 1
            };
        }
    }
}

/// Where an unreadable configuration file is kept for inspection.
pub fn backup_name(secs: u64) -> (r: String)
    ensures
        r@ == "config.json.broken-"@ + crate::numbers::decimal(secs as nat),
{
    let n = crate::numbers::to_decimal(secs as u128);
    crate::text::concat2("config.json.broken-", n.as_str())
}

/// Data that are served although they could not be fetched anew say so, and are
/// otherwise what they were. Where there are none, the error is served.
pub proof fn stale_data_say_so(
    c: CacheView,
    key: Seq<char>,
    at: u128,
    m: crate::json::Fields,
    error: Seq<char>,
    other: Seq<char>,
)
    ensures
        held(c, key) == Some((at, JsonView::Object(m))) ==> {
            let v = served_instead(c, key, error);
            &&& v.get("stale"@) == Some(JsonView::Bool(true))
            &&& other != "stale"@ ==> v.get(other) == crate::json::field(m, other)
        },
        held(c, key) is None ==> served_instead(c, key, error).get("error"@) == Some(
            JsonView::Str(error),
        ) && served_instead(c, key, error).get("stale"@) is None,
{
    broadcast use crate::json::reading_behind_setting;

    reveal_strlit("stale");
    reveal_strlit("error");
    assert("stale"@[0] == 's');
    assert("error"@[0] == 'e');
}

/// Data are fresh for as long as their time to live, and a clock that seems to
/// have gone back makes them no older.
pub proof fn data_are_fresh_for_their_time(at: u128, now: u128, ttl: u128)
    ensures
        now >= at ==> (still_fresh(at, now, ttl) <==> now < at + ttl),
        now < at ==> (still_fresh(at, now, ttl) <==> ttl > 0),
{
}

/// A count goes up by one, and behind the largest it starts over.
pub proof fn a_count_goes_up_by_one(count: u64)
    ensures
        count < u64::MAX ==> next_count(count) == count + 1,
        next_count(u64::MAX) == 0,
        next_count(count) != count,
{
}

/// Sessions are signed with the secret that is kept.
pub proof fn sessions_are_signed_with_the_kept_secret(s: AppState)
    ensures
        s.session_secret matches Some(b) ==> signing_secret(s) == b@,
        s.session_secret is None ==> signing_secret(s).len() == 0,
{
}

/// Where each key stands once, every entry is held under its key.
pub proof fn every_entry_is_held(c: CacheView, i: int)
    requires
        each_key_once(c),
        0 <= i < c.len(),
    ensures
        held(c, c[i].0) == Some(c[i].1),
    decreases c.len(),
{
    if i > 0 {
        let rest = c.drop_first();
        assert(c[0].0 != c[i].0);
        assert forall|a: int, b: int| 0 <= a < b < rest.len() implies #[trigger] rest[a].0
            != #[trigger] rest[b].0 by {
            assert(c[a + 1].0 != c[b + 1].0);
        }
        every_entry_is_held(rest, i - 1);
    }
}

} // verus!
