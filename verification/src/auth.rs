//! Passwords and signed session tokens.
//!
//! A stored password carries its own parameters, so the number of rounds can be
//! raised without invalidating what is stored. A session token is a signed time
//! of issue; the signature is checked before the time is looked at.

use base64::Engine;
use hmac::Mac;
use rand::RngCore;
use subtle::ConstantTimeEq;
use vstd::prelude::*;
use vstd::utf8::*;

use crate::bytes::utf8;
use crate::clock::secs_now;
use crate::numbers::{
    decimal, decimal_reads_back, hex_text, lemma_decimal, parse_u64, parse_unsigned, parse_up_to,
    to_decimal, to_hex,
};
use crate::reply::{done_reply, error_reply, json_error, Reply, ReplyView};
use crate::state::{signing_secret, AppState};
use crate::text::{
    begins, concat2, concat3, cut, holds, holds_what_stands_in_it, is_alnum, is_digit, is_space,
    join, join_strings, lemma_find, lemma_split_head, lemma_split_plain, same, split, split_char,
    split_once, split_undoes_join, trim, trimmed, views,
};

verus! {

/// How many rounds a new password hash takes.
pub const ITERATIONS: u32 = 210_000;

/// How many random bytes a password hash is salted with.
pub const SALT_LEN: usize = 16;

/// How many bytes of key a new password hash holds.
pub const KEY_LEN: usize = 32;

/// The name of the session cookie.
pub const COOKIE_NAME: &'static str = "mindash_session";

/// For how many seconds a session is valid: 30 days.
pub const SESSION_TTL_SECS: u64 = 2_592_000;

// ---------------------------------------------------------------------------
// What the outside crates compute
// ---------------------------------------------------------------------------

/// What `base64`'s `URL_SAFE_NO_PAD` engine writes for the bytes.
pub uninterp spec fn url64(data: Seq<u8>) -> Seq<char>;

/// The HMAC-SHA256 of a message under a key.
pub uninterp spec fn hmac_sha256(key: Seq<u8>, message: Seq<u8>) -> Seq<u8>;

/// The key of `size` bytes that PBKDF2-HMAC-SHA256 derives.
pub uninterp spec fn pbkdf2_sha256(
    password: Seq<u8>,
    salt: Seq<u8>,
    rounds: u32,
    size: nat,
) -> Seq<u8>;

/// The characters that URL-safe base64 text is made of.
pub open spec fn is_url64(c: char) -> bool {
    is_alnum(c) || c == '-' || c == '_'
}

/// The longest key, in bytes, that PBKDF2 with SHA-256 can derive: one block of
/// 32 bytes for every count that a `u32` holds.
pub const LONGEST_KEY: u64 = 137_438_953_440;

/// Encodes bytes with `base64::Engine::encode` of the `URL_SAFE_NO_PAD` engine.
/// The contract names the result, which depends on the bytes alone, and says
/// that it is made of the URL-safe alphabet, that it is empty only for no bytes,
/// and that no other bytes are encoded the same way. As elsewhere, running out of memory is not considered.
#[verifier::external_body]
fn b64(data: &[u8]) -> (r: String)
    ensures
        r@ == url64(data@),
        forall|i: int| 0 <= i < r@.len() ==> is_url64(#[trigger] r@[i]),
        r@.len() == 0 <==> data@.len() == 0,
        forall|other: Seq<u8>| #[trigger] url64(other) == r@ ==> other == data@,
{
    base64::engine::general_purpose::URL_SAFE_NO_PAD.encode(data)
}

/// Decodes text with `base64::Engine::decode` of the `URL_SAFE_NO_PAD` engine,
/// which accepts no padding and no stray bits at the end. The contract says that
/// it undoes the encoding: text that encodes some bytes gives those bytes, and
/// any other text is refused. What is accepted is made of the URL-safe alphabet,
/// and gives no bytes only where it is empty.
#[verifier::external_body]
fn unb64(s: &str) -> (r: Option<Vec<u8>>)
    ensures
        match r {
            Some(b) => {
                &&& forall|other: Seq<u8>| (#[trigger] url64(other) == s@) == (other == b@)
                &&& forall|i: int| 0 <= i < s@.len() ==> is_url64(#[trigger] s@[i])
                &&& s@.len() == 0 <==> b@.len() == 0
            },
            None => forall|other: Seq<u8>| #[trigger] url64(other) != s@,
        },
{
    base64::engine::general_purpose::URL_SAFE_NO_PAD.decode(s).ok()
}

/// Computes an HMAC with `hmac::Hmac<sha2::Sha256>`, fed the message and ended
/// with `finalize`. A key of any length is accepted. The contract names the
/// result, which depends on the key and the message alone, and gives its length.
#[verifier::external_body]
fn mac(key: &[u8], message: &[u8]) -> (r: Vec<u8>)
    ensures
        r@ == hmac_sha256(key@, message@),
        r@.len() == 32,
{
    let mut mac = hmac::Hmac::<sha2::Sha256>::new_from_slice(key).expect("any key length");
    mac.update(message);
    mac.finalize().into_bytes().to_vec()
}

/// Checks an HMAC with `hmac::Mac::verify_slice`, which accepts exactly the full
/// code of the message, of 32 bytes, and compares in constant time.
#[verifier::external_body]
fn mac_matches(key: &[u8], message: &[u8], tag: &[u8]) -> (r: bool)
    ensures
        r == (tag@ == hmac_sha256(key@, message@)),
        r ==> tag@.len() == 32,
{
    let mut mac = hmac::Hmac::<sha2::Sha256>::new_from_slice(key).expect("any key length");
    mac.update(message);
    mac.verify_slice(tag).is_ok()
}

/// Derives a key with `pbkdf2::pbkdf2_hmac::<sha2::Sha256>`. The contract names
/// the result, which depends on the four arguments alone, and gives its length.
/// A longer key than the block counter can number is left out.
#[verifier::external_body]
fn derive(password: &[u8], salt: &[u8], rounds: u32, size: usize) -> (r: Vec<u8>)
    requires
        size <= LONGEST_KEY,
    ensures
        r@ == pbkdf2_sha256(password@, salt@, rounds, size as nat),
        r@.len() == size,
{
    let mut key = vec![0u8; size];
    pbkdf2::pbkdf2_hmac::<sha2::Sha256>(password, salt, rounds, &mut key);
    key
}

/// Compares bytes with `subtle`'s `ConstantTimeEq::ct_eq` for slices, which says
/// yes exactly where lengths and contents agree.
#[verifier::external_body]
fn same_bytes(a: &[u8], b: &[u8]) -> (r: bool)
    ensures
        r == (a@ == b@),
{
    a.ct_eq(b).into()
}

/// Fills a buffer with `rand`'s thread-local generator. What the bytes are is
/// left to chance. Where the operating system gives no randomness at all,
/// `rand` stops the program.
#[verifier::external_body]
fn random_bytes(size: usize) -> (r: Vec<u8>)
    ensures
        r@.len() == size,
{
    let mut buf = vec![0u8; size];
    rand::thread_rng().fill_bytes(&mut buf);
    buf
}

// ---------------------------------------------------------------------------
// Passwords
// ---------------------------------------------------------------------------

/// The stored form of a password: `pbkdf2$sha256$<rounds>$<salt>$<key>`.
pub open spec fn hash_text(password: Seq<char>, salt: Seq<u8>, rounds: u32) -> Seq<char> {
    let key = pbkdf2_sha256(encode_utf8(password), salt, rounds, KEY_LEN as nat);
    join(seq!["pbkdf2"@, "sha256"@, decimal(rounds as nat), url64(salt), url64(key)], seq!['$'])
}

/// Is the key the one that the password and the salt give? There is one, and
/// it is no longer than can be derived.
pub open spec fn key_fits(password: Seq<char>, salt: Seq<u8>, rounds: u32, key: Seq<u8>) -> bool {
    &&& 0 < key.len() <= LONGEST_KEY
    &&& key == pbkdf2_sha256(encode_utf8(password), salt, rounds, key.len())
}

/// Is this the password behind the stored hash? The hash names the scheme, the
/// number of rounds, the salt and the key, and nothing more; anything else is no
/// hash at all.
pub open spec fn password_matches(password: Seq<char>, stored: Seq<char>) -> bool {
    let p = split(stored, '$');
    &&& p.len() == 5
    &&& p[0] == "pbkdf2"@
    &&& p[1] == "sha256"@
    &&& parse_unsigned(p[2], u32::MAX as nat) is Some
    &&& exists|salt: Seq<u8>, key: Seq<u8>|
        #[trigger] url64(salt) == p[3] && #[trigger] url64(key) == p[4] && key_fits(
            password,
            salt,
            parse_unsigned(p[2], u32::MAX as nat)->0 as u32,
            key,
        )
}

/// A text of digits or of base64 holds no dollar sign.
proof fn lemma_no_dollar(s: Seq<char>)
    requires
        forall|i: int| 0 <= i < s.len() ==> is_digit(#[trigger] s[i]) || is_url64(s[i]),
    ensures
        !s.contains('$'),
        !s.contains('.'),
{
    if s.contains('$') {
        let i = choose|i: int| 0 <= i < s.len() && s[i] == '$';
        assert(is_digit(s[i]) || is_url64(s[i]));
    }
    if s.contains('.') {
        let i = choose|i: int| 0 <= i < s.len() && s[i] == '.';
        assert(is_digit(s[i]) || is_url64(s[i]));
    }
}

/// Does the stored hash answer to the password, and to no password with another
/// key?
pub open spec fn answers_to(
    stored: Seq<char>,
    password: Seq<char>,
    salt: Seq<u8>,
    rounds: u32,
) -> bool {
    &&& password_matches(password, stored)
    &&& forall|other: Seq<char>| #[trigger]
        password_matches(other, stored) ==> pbkdf2_sha256(
            encode_utf8(other),
            salt,
            rounds,
            KEY_LEN as nat,
        ) == pbkdf2_sha256(encode_utf8(password), salt, rounds, KEY_LEN as nat)
}

/// Does the stored hash come of this salt alone? With another salt every
/// password has another hash.
pub open spec fn salted_with(stored: Seq<char>, salt: Seq<u8>, rounds: u32) -> bool {
    forall|password: Seq<char>, other: Seq<u8>|
        other != salt ==> #[trigger] hash_text(password, other, rounds) != stored
}

/// A stored hash up to the salt.
spec fn hash_head(rounds: u32) -> Seq<char> {
    join(seq!["pbkdf2"@, "sha256"@, decimal(rounds as nat)], seq!['$']) + seq!['$']
}

/// A stored hash is its head, the salt and the key.
proof fn lemma_hash_shape(password: Seq<char>, salt: Seq<u8>, rounds: u32)
    ensures
        hash_text(password, salt, rounds) == hash_head(rounds) + (url64(salt) + seq!['$'] + url64(
            pbkdf2_sha256(encode_utf8(password), salt, rounds, KEY_LEN as nat),
        )),
{
    let key = pbkdf2_sha256(encode_utf8(password), salt, rounds, KEY_LEN as nat);
    let three = seq!["pbkdf2"@, "sha256"@, decimal(rounds as nat)];
    let four = three.push(url64(salt));
    let five = four.push(url64(key));
    assert(five =~= seq![
        "pbkdf2"@,
        "sha256"@,
        decimal(rounds as nat),
        url64(salt),
        url64(key),
    ]);
    assert(five.drop_last() =~= four);
    assert(four.drop_last() =~= three);
    assert(join(five, seq!['$']) == join(four, seq!['$']) + seq!['$'] + url64(key));
    assert(join(four, seq!['$']) == join(three, seq!['$']) + seq!['$'] + url64(salt));
    assert(join(five, seq!['$']) =~= hash_head(rounds) + (url64(salt) + seq!['$'] + url64(key)));
}

/// The stored form of a password for a salt and a number of rounds. Whatever
/// the number of rounds is, the password verifies against it, and no password
/// with another key does.
pub fn hash_with(password: &str, salt: &[u8], rounds: u32) -> (r: String)
    ensures
        r@ == hash_text(password@, salt@, rounds),
        answers_to(r@, password@, salt@, rounds),
        salted_with(r@, salt@, rounds),
{
    let key = derive(password.as_bytes(), salt, rounds, KEY_LEN);
    let mut parts: Vec<String> = Vec::new();
    parts.push(String::from_str("pbkdf2"));
    parts.push(String::from_str("sha256"));
    parts.push(to_decimal(rounds as u128));
    parts.push(b64(salt));
    parts.push(b64(key.as_slice()));
    let r = join_strings(&parts, "$");
    proof {
        let p = views(parts@);
        let d = decimal(rounds as nat);
        assert(p =~= seq!["pbkdf2"@, "sha256"@, d, url64(salt@), url64(key@)]);
        reveal_strlit("$");
        reveal_strlit("pbkdf2");
        reveal_strlit("sha256");
        assert("$"@ =~= seq!['$']);
        lemma_decimal(rounds as nat);
        lemma_no_dollar("pbkdf2"@);
        lemma_no_dollar("sha256"@);
        lemma_no_dollar(d);
        lemma_no_dollar(p[3]);
        lemma_no_dollar(p[4]);
        split_undoes_join(p, '$');
        decimal_reads_back(rounds as nat, u32::MAX as nat);
        assert(key_fits(password@, salt@, rounds, key@));
        assert(url64(salt@) == p[3] && url64(key@) == p[4]);
        assert forall|other: Seq<char>| #[trigger] password_matches(
            other,
            r@,
        ) implies pbkdf2_sha256(encode_utf8(other), salt@, rounds, KEY_LEN as nat) == key@ by {
            let (s, k) = choose|s: Seq<u8>, k: Seq<u8>|
                #[trigger] url64(s) == p[3] && #[trigger] url64(k) == p[4] && key_fits(
                    other,
                    s,
                    rounds,
                    k,
                );
            assert(s == salt@ && k == key@);
        }
        assert forall|word: Seq<char>, other: Seq<u8>| other != salt@ implies #[trigger] hash_text(
            word,
            other,
            rounds,
        ) != r@ by {
            lemma_hash_shape(word, other, rounds);
            lemma_hash_shape(password@, salt@, rounds);
            let h = hash_head(rounds);
            let w = hash_text(word, other, rounds);
            if w == r@ {
                let a = p[3] + seq!['$'] + p[4];
                let b = w.skip(h.len() as int);
                assert(r@.skip(h.len() as int) =~= a);
                let n = url64(other).len() as int;
                assert(b[n] == '$');
                if n < p[3].len() {
                    assert(p[3][n] == '$');
                    assert(p[3].contains('$'));
                } else if n > p[3].len() {
                    assert(p[4][n - p[3].len() - 1] == '$');
                    assert(p[4].contains('$'));
                }
                assert(b.take(n) =~= url64(other));
                assert(a.take(n) =~= p[3]);
                assert(url64(other) == p[3]);
            }
        }
    }
    r
}

/// Derives a hash to store, with a salt drawn at random. The password verifies
/// against it, and no password with another key does.
pub fn hash_password(password: &str) -> (r: String)
    ensures
        exists|salt: Seq<u8>|
            {
                &&& salt.len() == SALT_LEN
                &&& r@ == #[trigger] hash_text(password@, salt, ITERATIONS)
                &&& answers_to(r@, password@, salt, ITERATIONS)
                &&& salted_with(r@, salt, ITERATIONS)
            },
        password_matches(password@, r@),
{
    let salt = random_bytes(SALT_LEN);
    hash_with(password, salt.as_slice(), ITERATIONS)
}

/// Is this the password behind the stored hash? A malformed hash is a
/// rejection.
pub fn verify_password(password: &str, stored: &str) -> (r: bool)
    ensures
        r == password_matches(password@, stored@),
{
    let parts = split_char(stored, '$');
    let ghost p = split(stored@, '$');
    assert(p == views(parts@));
    if parts.len() != 5 {
        return false;
    }
    if !same(parts[0].as_str(), "pbkdf2") || !same(parts[1].as_str(), "sha256") {
        return false;
    }
    let rounds: u32 = match parse_up_to(parts[2].as_str(), 0xffff_ffff) {
        Some(n) => n as u32,
        None => {
            return false;
        },
    };
    let salt = match unb64(parts[3].as_str()) {
        Some(b) => b,
        None => {
            return false;
        },
    };
    let expected = match unb64(parts[4].as_str()) {
        Some(b) => b,
        None => {
            return false;
        },
    };
    assert(url64(salt@) == p[3]);
    assert(url64(expected@) == p[4]);
    if expected.len() == 0 || expected.len() as u64 > LONGEST_KEY {
        return false;
    }
    let key = derive(password.as_bytes(), salt.as_slice(), rounds, expected.len());
    let r = same_bytes(key.as_slice(), expected.as_slice());
    assert(r == key_fits(password@, salt@, rounds, expected@));
    r
}

/// 32 random bytes in hexadecimal.
pub fn random_secret() -> (r: String)
    ensures
        exists|b: Seq<u8>| b.len() == 32 && r@ == #[trigger] hex_text(b),
{
    let buf = random_bytes(32);
    to_hex(&buf)
}

// ---------------------------------------------------------------------------
// Sessions
// ---------------------------------------------------------------------------

/// The signature of a payload under a secret.
pub open spec fn signature(payload: Seq<char>, secret: Seq<u8>) -> Seq<char> {
    url64(hmac_sha256(secret, encode_utf8(payload)))
}

/// The token of a session that was issued at that second.
pub open spec fn session_token(issued: nat, secret: Seq<u8>) -> Seq<char> {
    let payload = url64(encode_utf8(decimal(issued)));
    payload + seq!['.'] + signature(payload, secret)
}

/// Does the text write a time of issue that is neither in the future nor too
/// long ago?
pub open spec fn fresh(issued: Seq<char>, now: nat) -> bool {
    match parse_unsigned(issued, u64::MAX as nat) {
        Some(t) => t <= now < t + SESSION_TTL_SECS,
        None => false,
    }
}

/// Is the token good at that second? It is a payload and the payload's
/// signature under the secret, and the payload encodes a fresh time of issue.
pub open spec fn session_ok(token: Seq<char>, secret: Seq<u8>, now: nat) -> bool {
    match cut(token, '.') {
        Some((payload, sig)) => {
            &&& sig == signature(payload, secret)
            &&& exists|issued: Seq<char>|
                #[trigger] url64(encode_utf8(issued)) == payload && fresh(issued, now)
        },
        None => false,
    }
}

/// Is the token good from that second on until the session's time has run out,
/// and at no other time?
pub open spec fn good_from(token: Seq<char>, secret: Seq<u8>, issued: u64) -> bool {
    forall|now: nat|
        #[trigger] session_ok(token, secret, now) <==> issued <= now < issued + SESSION_TTL_SECS
}

/// The code of a token's payload under a secret.
pub open spec fn payload_code(token: Seq<char>, secret: Seq<u8>) -> Seq<u8> {
    match cut(token, '.') {
        Some((payload, _)) => hmac_sha256(secret, encode_utf8(payload)),
        None => seq![],
    }
}

/// Is the token bound to the secret? Under a secret that gives its payload
/// another code it is good at no time.
pub open spec fn bound_to(token: Seq<char>, secret: Seq<u8>) -> bool {
    forall|other: Seq<u8>, now: nat| #[trigger]
        session_ok(token, other, now) ==> payload_code(token, other) == payload_code(token, secret)
}

/// Does the text have the shape of a token: two parts of URL-safe base64 with a
/// dot between them, neither of them empty?
pub open spec fn has_token_shape(token: Seq<char>) -> bool {
    match cut(token, '.') {
        Some((payload, sig)) => {
            &&& payload.len() > 0
            &&& sig.len() > 0
            &&& forall|i: int| 0 <= i < payload.len() ==> is_url64(#[trigger] payload[i])
            &&& forall|i: int| 0 <= i < sig.len() ==> is_url64(#[trigger] sig[i])
        },
        None => false,
    }
}

/// Is the text one that a cookie can hold as it is: made of URL-safe base64 and
/// dots?
pub open spec fn is_token_text(token: Seq<char>) -> bool {
    forall|i: int| 0 <= i < token.len() ==> is_url64(#[trigger] token[i]) || token[i] == '.'
}

/// Signs a payload. The signature is never empty, and a code other than the
/// payload's is not written the same way.
pub fn sign(payload: &str, secret: &[u8]) -> (r: String)
    ensures
        r@ == signature(payload@, secret@),
        r@.len() > 0,
        forall|i: int| 0 <= i < r@.len() ==> is_url64(#[trigger] r@[i]),
        forall|code: Seq<u8>| #[trigger]
            url64(code) == r@ ==> code == hmac_sha256(secret@, encode_utf8(payload@)),
{
    let code = mac(secret, payload.as_bytes());
    b64(code.as_slice())
}

/// The token of a session that is issued at that second. It is good from then
/// on until the session's time has run out, and at no other time, and never under
/// a secret that gives it another code.
pub fn issue_at(issued: u64, secret: &[u8]) -> (r: String)
    ensures
        r@ == session_token(issued as nat, secret@),
        good_from(r@, secret@, issued),
        bound_to(r@, secret@),
        is_token_text(r@),
{
    let text = to_decimal(issued as u128);
    let payload = b64(text.as_str().as_bytes());
    let sig = sign(payload.as_str(), secret);
    let r = concat3(payload.as_str(), ".", sig.as_str());
    proof {
        reveal_strlit(".");
        assert("."@ =~= seq!['.']);
        lemma_no_dollar(payload@);
        lemma_split_head(payload@, '.', sig@);
        decimal_reads_back(issued as nat, u64::MAX as nat);
        assert forall|now: nat| #[trigger] session_ok(r@, secret@, now) <==> issued <= now < issued
            + SESSION_TTL_SECS by {
            assert(url64(encode_utf8(text@)) == payload@);
            if session_ok(r@, secret@, now) {
                let t = choose|t: Seq<char>|
                    #[trigger] url64(encode_utf8(t)) == payload@ && fresh(t, now);
                assert(encode_utf8(t) == encode_utf8(text@));
                encode_utf8_decode_utf8(t);
                encode_utf8_decode_utf8(text@);
                assert(t == text@);
            }
            if issued <= now < issued + SESSION_TTL_SECS {
                assert(fresh(text@, now));
            }
        }
        assert forall|other: Seq<u8>, now: nat| #[trigger] session_ok(
            r@,
            other,
            now,
        ) implies payload_code(r@, other) == payload_code(r@, secret@) by {
            assert(url64(hmac_sha256(other, encode_utf8(payload@))) == sig@);
        }
    }
    r
}

/// The token of a session that is issued now.
pub fn issue_session(secret: &[u8]) -> (r: String)
    ensures
        exists|issued: u64|
            r@ == #[trigger] session_token(issued as nat, secret@) && good_from(
                r@,
                secret@,
                issued,
            ),
        bound_to(r@, secret@),
        is_token_text(r@),
{
    let issued: u64 = secs_now();
    let r = issue_at(issued, secret);
    assert(r@ == session_token(issued as nat, secret@));
    r
}

/// Is the token good at that second? The signature is checked first, so a
/// forged time is rejected before it is looked at. A token that is good now was
/// issued at some second, and it is good from then on until the session's time
/// has run out, and at no other time, and never under a secret that gives it
/// another code. What has not the shape of a token is good at no time.
pub fn verify_at(token: &str, secret: &[u8], now: u64) -> (r: bool)
    ensures
        r == session_ok(token@, secret@, now as nat),
        r ==> exists|issued: u64| #[trigger] good_from(token@, secret@, issued),
        r ==> bound_to(token@, secret@),
        forall|at: nat| #[trigger]
            session_ok(token@, secret@, at) ==> has_token_shape(token@),
{
    let (payload, sig) = match split_once(token, '.') {
        Some(pair) => pair,
        None => {
            return false;
        },
    };
    let tag = match unb64(sig.as_str()) {
        Some(b) => b,
        None => {
            return false;
        },
    };
    assert(url64(tag@) == sig@);
    if !mac_matches(secret, payload.as_str().as_bytes(), tag.as_slice()) {
        return false;
    }
    let raw = match unb64(payload.as_str()) {
        Some(b) => b,
        None => {
            return false;
        },
    };
    let ghost bytes = raw@;
    assert(url64(bytes) == payload@);
    let text = match utf8(raw) {
        Some(t) => t,
        None => {
            proof {
                assert forall|t: Seq<char>| #[trigger] url64(encode_utf8(t)) != payload@ by {
                    encode_utf8_valid_utf8(t);
                }
            }
            return false;
        },
    };
    proof {
        assert forall|t: Seq<char>| #[trigger] url64(encode_utf8(t)) == payload@ implies t
            == text@ by {
            encode_utf8_decode_utf8(t);
            encode_utf8_decode_utf8(text@);
        }
        assert(url64(encode_utf8(text@)) == payload@);
    }
    let issued: u64 = match parse_u64(text.as_str()) {
        Some(n) => n,
        None => {
            return false;
        },
    };
    proof {
        assert forall|at: nat| #[trigger] session_ok(token@, secret@, at) <==> issued <= at < issued
            + SESSION_TTL_SECS by {
            assert(fresh(text@, at) <==> issued <= at < issued + SESSION_TTL_SECS);
        }
        assert(good_from(token@, secret@, issued));
        assert(payload@.len() > 0) by {
            if payload@.len() == 0 {
                let none = Seq::<char>::empty();
                encode_utf8_decode_utf8(text@);
                encode_utf8_decode_utf8(none);
                assert(encode_utf8(none) =~= bytes);
                assert(text@ == none);
            }
        }
        assert forall|other: Seq<u8>, at: nat| #[trigger] session_ok(
            token@,
            other,
            at,
        ) implies payload_code(token@, other) == payload_code(token@, secret@) by {
            assert(url64(hmac_sha256(other, encode_utf8(payload@))) == sig@);
        }
    }
    issued <= now && now - issued < SESSION_TTL_SECS
}

/// Is the token good now? What has not the shape of a token never is.
pub fn verify_session(token: &str, secret: &[u8]) -> (r: bool)
    ensures
        exists|now: u64| r == #[trigger] session_ok(token@, secret@, now as nat),
        r ==> has_token_shape(token@) && bound_to(token@, secret@),
{
    let now: u64 = secs_now();
    let r = verify_at(token, secret, now);
    assert(r == session_ok(token@, secret@, now as nat));
    r
}

/// For a payload there is one signature that is accepted: a token whose
/// signature is changed in any way is rejected, whatever the time.
pub proof fn a_changed_signature_is_rejected(
    payload: Seq<char>,
    sig: Seq<char>,
    other: Seq<char>,
    secret: Seq<u8>,
    now: nat,
    later: nat,
)
    requires
        !payload.contains('.'),
        session_ok(payload + seq!['.'] + sig, secret, now),
        other != sig,
    ensures
        !session_ok(payload + seq!['.'] + other, secret, later),
{
    lemma_split_head(payload, '.', sig);
    lemma_split_head(payload, '.', other);
}

/// A session that was issued is good for its time under its secret; with anything
/// added to its token it never is, nor is it under a secret that gives its
/// payload another code.
pub proof fn a_session_is_good_for_its_secret_only(
    token: Seq<char>,
    secret: Seq<u8>,
    issued: u64,
    now: nat,
    added: Seq<char>,
    other: Seq<u8>,
)
    requires
        good_from(token, secret, issued),
        bound_to(token, secret),
        issued <= now < issued + SESSION_TTL_SECS,
    ensures
        session_ok(token, secret, now),
        added.len() > 0 ==> !session_ok(token + added, secret, now),
        payload_code(token, other) != payload_code(token, secret) ==> !session_ok(
            token,
            other,
            now,
        ),
{
    assert(session_ok(token, secret, now));
    let (payload, sig) = cut(token, '.')->0;
    lemma_find(token, '.');
    assert(token =~= payload + seq!['.'] + sig);
    if added.len() > 0 {
        assert(token + added =~= payload + seq!['.'] + (sig + added));
        assert((sig + added).len() != sig.len());
        a_changed_signature_is_rejected(payload, sig, sig + added, secret, now, now);
    }
}

// ---------------------------------------------------------------------------
// The cookie
// ---------------------------------------------------------------------------

/// The value of the session cookie among the parts of a cookie header: that of
/// the first part that bears the cookie's name.
pub open spec fn cookie_among(parts: Seq<Seq<char>>) -> Option<Seq<char>>
    decreases parts.len(),
{
    if parts.len() == 0 {
        None
    } else {
        match cut(parts[0], '=') {
            Some((k, v)) => if trimmed(k) == COOKIE_NAME@ {
                Some(trimmed(v))
            } else {
                cookie_among(parts.drop_first())
            },
            None => cookie_among(parts.drop_first()),
        }
    }
}

/// Trimming a text that has no space in it changes nothing.
proof fn lemma_trim_plain(s: Seq<char>)
    requires
        forall|i: int| 0 <= i < s.len() ==> !is_space(#[trigger] s[i]),
    ensures
        trimmed(s) == s,
{
    if s.len() > 0 {
        assert(!is_space(s[0]) && !is_space(s[s.len() - 1]));
    }
}

/// A session token that was set as a cookie is read back from the header that a
/// browser sends.
pub proof fn the_cookie_gives_the_token_back(token: Seq<char>)
    requires
        is_token_text(token),
    ensures
        cookie_among(split("mindash_session="@ + token, ';')) == Some(token),
{
    reveal_strlit("mindash_session=");
    reveal_strlit("mindash_session");
    let name = COOKIE_NAME@;
    let header = "mindash_session="@ + token;
    assert("mindash_session="@ =~= name + seq!['=']);
    if header.contains(';') {
        let i = choose|i: int| 0 <= i < header.len() && header[i] == ';';
        if i >= 16 {
            assert(token[i - 16] == ';');
            assert(is_url64(token[i - 16]) || token[i - 16] == '.');
        }
    }
    lemma_split_plain(header, ';');
    assert(!name.contains('='));
    assert(header =~= name + seq!['='] + token);
    lemma_split_head(name, '=', token);
    lemma_trim_plain(name);
    assert forall|i: int| 0 <= i < token.len() implies !is_space(#[trigger] token[i]) by {
        assert(is_url64(token[i]) || token[i] == '.');
    }
    lemma_trim_plain(token);
    assert(seq![header][0] == header);
}

/// The session token in a cookie header.
pub fn session_from_cookie(header: &str) -> (r: Option<String>)
    ensures
        crate::text::opt_view(r) == cookie_among(split(header@, ';')),
{
    let parts = split_char(header, ';');
    let ghost pv = views(parts@);
    let mut i: usize = 0;
    assert(pv.skip(0) =~= pv);
    while i < parts.len()
        invariant
            i <= parts@.len(),
            pv == views(parts@),
            pv == split(header@, ';'),
            cookie_among(pv) == cookie_among(pv.skip(i as int)),
        decreases parts.len() - i,
    {
        assert(pv.skip(i as int)[0] == parts@[i as int]@);
        assert(pv.skip(i as int).drop_first() =~= pv.skip(i + 1));
        if let Some((k, v)) = split_once(parts[i].as_str(), '=') {
            let name = trim(k.as_str());
            if same(name.as_str(), COOKIE_NAME) {
                return Some(trim(v.as_str()));
            }
        }
        i = i + 1;
    }
    None
}

// ---------------------------------------------------------------------------
// Signing in and out
// ---------------------------------------------------------------------------

/// A request to sign in.
#[derive(Debug, Clone)]
pub struct LoginRequest {
    pub password: String,
}

/// The cookie that holds a token for so many seconds: it goes to every path of
/// this site and to no other, and no script can read it.
pub open spec fn cookie_text(token: Seq<char>, seconds: nat) -> Seq<char> {
    "mindash_session="@ + token + "; Path=/; HttpOnly; SameSite=Strict; Max-Age="@ + decimal(
        seconds,
    )
}

/// The reply that succeeds and sets a cookie.
pub open spec fn cookie_reply(cookie: Seq<char>) -> ReplyView {
    ReplyView { headers: seq![("set-cookie"@, cookie)], ..done_reply() }
}

/// The reply that succeeds and sets the session cookie.
fn set_cookie(token: &str, seconds: u64) -> (r: Reply)
    ensures
        r@ == cookie_reply(cookie_text(token@, seconds as nat)),
{
    let head = concat3(
        "mindash_session=",
        token,
        "; Path=/; HttpOnly; SameSite=Strict; Max-Age=",
    );
    let age = to_decimal(seconds as u128);
    let cookie = concat2(head.as_str(), age.as_str());
    let r = Reply::done().with_header("set-cookie", cookie.as_str());
    assert(done_reply().headers.push(("set-cookie"@, cookie@)) =~= seq![("set-cookie"@, cookie@)]);
    r
}

/// Is this the password that is set? Where none is set, none is.
pub open spec fn is_the_password(state: AppState, password: Seq<char>) -> bool {
    match state.password_hash {
        Some(h) => password_matches(password, h@),
        None => false,
    }
}

/// The reply to a request to sign in: a fresh session for the right password. For
/// a wrong one, and where none is set, the reply is the same, so that it does not
/// tell the two apart.
pub fn login(state: &AppState, body: &LoginRequest) -> (r: Reply)
    ensures
        !is_the_password(*state, body.password@) ==> r@ == error_reply(401, "Invalid password"@),
        is_the_password(*state, body.password@) ==> exists|issued: u64|
            {
                let token = #[trigger] session_token(issued as nat, signing_secret(*state));
                &&& r@ == cookie_reply(cookie_text(token, SESSION_TTL_SECS as nat))
                &&& good_from(token, signing_secret(*state), issued)
                &&& bound_to(token, signing_secret(*state))
                &&& is_token_text(token)
            },
{
    if !state.auth_enabled() || !state.verify_password(body.password.as_str()) {
        return json_error(401, "Invalid password");
    }
    let token = state.issue_session();
    set_cookie(token.as_str(), SESSION_TTL_SECS)
}

/// The reply to a request to sign out: the cookie is emptied and expires at once.
pub fn logout() -> (r: Reply)
    ensures
        r@ == cookie_reply(cookie_text(seq![], 0)),
{
    assert(""@ =~= Seq::<char>::empty()) by {
        reveal_strlit("");
    }
    set_cookie("", 0)
}

// ---------------------------------------------------------------------------
// Laws of hashes and cookies
// ---------------------------------------------------------------------------

/// A new hash takes 210,000 rounds over sixteen bytes of salt and holds a key of
/// thirty-two bytes; a session lasts thirty days.
pub proof fn the_parameters_of_hashes_and_sessions()
    ensures
        ITERATIONS == 210_000,
        SALT_LEN == 16,
        KEY_LEN == 32,
        SESSION_TTL_SECS == 30 * 24 * 60 * 60,
        COOKIE_NAME@ == "mindash_session"@,
{
}

/// A stored hash names its scheme and its rounds in front of the salt and the
/// key.
pub proof fn a_hash_names_its_parameters(password: Seq<char>, salt: Seq<u8>, rounds: u32)
    ensures
        hash_text(password, salt, rounds) == "pbkdf2$sha256$"@ + decimal(rounds as nat) + seq!['$']
            + url64(salt) + seq!['$'] + url64(
            pbkdf2_sha256(encode_utf8(password), salt, rounds, 32),
        ),
{
    lemma_hash_shape(password, salt, rounds);
    reveal_strlit("pbkdf2");
    reveal_strlit("sha256");
    reveal_strlit("pbkdf2$sha256$");
    let a = seq!["pbkdf2"@, "sha256"@, decimal(rounds as nat)];
    assert(a.drop_last() =~= seq!["pbkdf2"@, "sha256"@]);
    assert(a.drop_last().drop_last() =~= seq!["pbkdf2"@]);
    reveal_with_fuel(join, 4);
    assert(hash_head(rounds) =~= "pbkdf2$sha256$"@ + decimal(rounds as nat) + seq!['$']);
    assert(hash_text(password, salt, rounds) =~= "pbkdf2$sha256$"@ + decimal(rounds as nat) + seq![
        '$',
    ] + url64(salt) + seq!['$'] + url64(
        pbkdf2_sha256(encode_utf8(password), salt, rounds, 32),
    ));
}

/// Only a proper hash answers to a password: five parts that name the scheme, a
/// number of rounds, a salt and a key that is not empty, and the key is the one
/// that the password gives with that salt and that many rounds.
pub proof fn only_a_proper_hash_answers(password: Seq<char>, stored: Seq<char>)
    ensures
        password_matches(password, stored) ==> {
            let p = split(stored, '$');
            &&& p.len() == 5 && p[0] == "pbkdf2"@ && p[1] == "sha256"@
            &&& parse_unsigned(p[2], u32::MAX as nat) matches Some(rounds) && exists|
                salt: Seq<u8>,
                key: Seq<u8>,
            |
                #[trigger] url64(salt) == p[3] && #[trigger] url64(key) == p[4] && key.len() > 0
                    && key == pbkdf2_sha256(
                    encode_utf8(password),
                    salt,
                    rounds as u32,
                    key.len(),
                )
        },
        split(stored, '$').len() != 5 ==> !password_matches(password, stored),
{
}

/// The password is the one behind the hash that is set; where none is set, no
/// password is.
pub proof fn without_a_hash_no_password_is_right(state: AppState, password: Seq<char>)
    ensures
        state.password_hash is None ==> !is_the_password(state, password),
        state.password_hash matches Some(h) ==> (is_the_password(state, password)
            <==> password_matches(password, h@)),
{
}

/// A token of that second is its time of issue, encoded, with its signature.
pub proof fn a_token_is_its_time_and_its_signature(issued: nat, secret: Seq<u8>)
    ensures
        ({
            let payload = url64(encode_utf8(decimal(issued)));
            session_token(issued, secret) == payload + seq!['.'] + url64(
                hmac_sha256(secret, encode_utf8(payload)),
            )
        }),
{
}

/// A token that is good is a payload, a dot and the payload's signature under the
/// secret, and its payload writes a time of issue that is neither in the future
/// nor thirty days ago. Every such token is good.
pub proof fn a_good_token_is_signed_and_fresh(
    payload: Seq<char>,
    sig: Seq<char>,
    secret: Seq<u8>,
    now: nat,
    issued: u64,
)
    requires
        !payload.contains('.'),
    ensures
        session_ok(payload + seq!['.'] + sig, secret, now) ==> sig == url64(
            hmac_sha256(secret, encode_utf8(payload)),
        ) && exists|text: Seq<char>|
            #[trigger] url64(encode_utf8(text)) == payload && (parse_unsigned(
                text,
                u64::MAX as nat,
            ) matches Some(t) && t <= now < t + 2_592_000),
        payload == url64(encode_utf8(decimal(issued as nat))) && sig == url64(
            hmac_sha256(secret, encode_utf8(payload)),
        ) && issued <= now < issued + 2_592_000 ==> session_ok(
            payload + seq!['.'] + sig,
            secret,
            now,
        ),
        !session_ok(payload, secret, now),
{
    lemma_split_head(payload, '.', sig);
    lemma_split_plain(payload, '.');
    decimal_reads_back(issued as nat, u64::MAX as nat);
    if payload == url64(encode_utf8(decimal(issued as nat))) {
        assert(fresh(decimal(issued as nat), now) <==> issued <= now < issued + 2_592_000);
    }
}

/// The shape of a token: two parts of letters, digits, dashes and underscores with
/// a dot between them, and neither of them empty.
pub proof fn the_shape_of_a_token(payload: Seq<char>, sig: Seq<char>)
    requires
        !payload.contains('.'),
    ensures
        has_token_shape(payload + seq!['.'] + sig) ==> payload.len() > 0 && sig.len() > 0
            && forall|i: int|
            0 <= i < sig.len() ==> is_alnum(#[trigger] sig[i]) || sig[i] == '-' || sig[i] == '_',
        payload.len() > 0 && sig.len() > 0 && (forall|i: int|
            0 <= i < payload.len() ==> is_alnum(#[trigger] payload[i])) && (forall|i: int|
            0 <= i < sig.len() ==> is_alnum(#[trigger] sig[i])) ==> has_token_shape(
            payload + seq!['.'] + sig,
        ),
        !has_token_shape(payload),
{
    lemma_split_head(payload, '.', sig);
    lemma_split_plain(payload, '.');
    if has_token_shape(payload + seq!['.'] + sig) {
        assert forall|i: int| 0 <= i < sig.len() implies is_alnum(#[trigger] sig[i]) || sig[i] == '-'
            || sig[i] == '_' by {
            assert(is_url64(sig[i]));
        }
    }
}

/// A time of issue is fresh from its second on for thirty days, and at no other
/// time; what is no time never is.
pub proof fn a_session_is_fresh_for_thirty_days(issued: u64, now: nat, text: Seq<char>)
    ensures
        fresh(decimal(issued as nat), now) <==> issued <= now < issued + 30 * 24 * 60 * 60,
        parse_unsigned(text, u64::MAX as nat) is None ==> !fresh(text, now),
{
    decimal_reads_back(issued as nat, u64::MAX as nat);
}

/// The session cookie is the first among the cookies that bears its name; those in
/// front of it do not count, and white space around it does not either.
pub proof fn the_cookie_is_found_among_others(
    parts: Seq<Seq<char>>,
    k: int,
    name: Seq<char>,
    value: Seq<char>,
)
    requires
        0 <= k < parts.len(),
        forall|i: int|
            0 <= i < k ==> (cut(#[trigger] parts[i], '=') matches Some(kv) ==> trimmed(kv.0)
                != "mindash_session"@),
        parts[k] == name + seq!['='] + value,
        !name.contains('='),
        trimmed(name) == "mindash_session"@,
    ensures
        cookie_among(parts) == Some(trimmed(value)),
    decreases parts.len(),
{
    if k == 0 {
        lemma_split_head(name, '=', value);
    } else {
        let rest = parts.drop_first();
        assert(rest[k - 1] == parts[k]);
        assert forall|i: int| 0 <= i < k - 1 implies (cut(#[trigger] rest[i], '=') matches Some(kv)
            ==> trimmed(kv.0) != "mindash_session"@) by {
            assert(rest[i] == parts[i + 1]);
        }
        assert(cut(parts[0], '=') matches Some(kv) ==> trimmed(kv.0) != "mindash_session"@);
        the_cookie_is_found_among_others(rest, k - 1, name, value);
    }
}

/// Without a cookie of that name there is no session.
pub proof fn without_the_cookie_there_is_no_session(parts: Seq<Seq<char>>)
    requires
        forall|i: int|
            0 <= i < parts.len() ==> (cut(#[trigger] parts[i], '=') matches Some(kv) ==> trimmed(
                kv.0,
            ) != "mindash_session"@),
    ensures
        cookie_among(parts) is None,
    decreases parts.len(),
{
    if parts.len() > 0 {
        let rest = parts.drop_first();
        assert forall|i: int| 0 <= i < rest.len() implies (cut(#[trigger] rest[i], '=')
            matches Some(kv) ==> trimmed(kv.0) != "mindash_session"@) by {
            assert(rest[i] == parts[i + 1]);
        }
        assert(cut(parts[0], '=') matches Some(kv) ==> trimmed(kv.0) != "mindash_session"@);
        without_the_cookie_there_is_no_session(rest);
    }
}

/// The reply that sets a cookie succeeds, and sets that cookie and no other
/// header.
pub proof fn a_cookie_is_set_once(cookie: Seq<char>)
    ensures
        cookie_reply(cookie).status == 200,
        cookie_reply(cookie).headers == seq![("set-cookie"@, cookie)],
        cookie_reply(cookie).body matches Some(v) && v.get("success"@) == Some(
            crate::json::JsonView::Bool(true),
        ),
{
    broadcast use crate::json::reading_behind_setting;

}

/// What the middle of a text holds, the text holds.
proof fn lemma_holds_at_place(
    head: Seq<char>,
    mid: Seq<char>,
    at: int,
    p: Seq<char>,
    back: Seq<char>,
)
    requires
        0 <= at <= mid.len() - p.len(),
        mid.subrange(at, at + p.len()) == p,
    ensures
        holds(head + mid + back, p),
{
    let s = head + mid + back;
    holds_what_stands_in_it(s, head + mid.take(at), p, mid.skip(at + p.len()) + back);
    assert(mid =~= mid.take(at) + mid.subrange(at, at + p.len()) + mid.skip(at + p.len()));
    assert(s =~= head + mid.take(at) + p + (mid.skip(at + p.len()) + back));
}

/// The attributes of the cookie, one by one.
proof fn lemma_attributes()
    ensures
        "; Path=/; HttpOnly; SameSite=Strict; Max-Age="@.len() == 45,
        "; Path=/; HttpOnly; SameSite=Strict; Max-Age="@.subrange(0, 9) == "; Path=/;"@,
        "; Path=/; HttpOnly; SameSite=Strict; Max-Age="@.subrange(8, 19) == "; HttpOnly;"@,
        "; Path=/; HttpOnly; SameSite=Strict; Max-Age="@.subrange(18, 36) == "; SameSite=Strict;"@,
        "; Path=/; HttpOnly; SameSite=Strict; Max-Age="@.subrange(35, 45) == "; Max-Age="@,
        "; Path=/;"@.len() == 9 && "; HttpOnly;"@.len() == 11,
        "; SameSite=Strict;"@.len() == 18 && "; Max-Age="@.len() == 10,
        "; Path=/; HttpOnly; SameSite=Strict; Max-Age="@[0] == ';',
{
    reveal_strlit("; Path=/; HttpOnly; SameSite=Strict; Max-Age=");
    reveal_strlit("; Path=/;");
    reveal_strlit("; HttpOnly;");
    reveal_strlit("; SameSite=Strict;");
    reveal_strlit("; Max-Age=");
}

/// The cookie holds the token, goes to every path, is kept from scripts and from
/// other sites, and lasts for the seconds that are given.
pub proof fn the_cookie_is_kept_from_others(token: Seq<char>, seconds: nat)
    ensures
        begins(cookie_text(token, seconds), "mindash_session="@ + token + seq![';']),
        holds(cookie_text(token, seconds), "; Path=/;"@),
        holds(cookie_text(token, seconds), "; HttpOnly;"@),
        holds(cookie_text(token, seconds), "; SameSite=Strict;"@),
        ({
            let end = "; Max-Age="@ + decimal(seconds);
            let c = cookie_text(token, seconds);
            c.len() >= end.len() && c.skip(c.len() - end.len()) == end
        }),
{
    lemma_attributes();
    let mid = "; Path=/; HttpOnly; SameSite=Strict; Max-Age="@;
    let head = "mindash_session="@ + token;
    let d = decimal(seconds);
    let c = cookie_text(token, seconds);
    assert(c == head + mid + d);
    let h = "mindash_session="@ + token + seq![';'];
    assert(c.subrange(0, h.len() as int) =~= h);
    lemma_holds_at_place(head, mid, 0, "; Path=/;"@, d);
    lemma_holds_at_place(head, mid, 8, "; HttpOnly;"@, d);
    lemma_holds_at_place(head, mid, 18, "; SameSite=Strict;"@, d);
    let end = "; Max-Age="@ + d;
    assert(mid.subrange(35, 45) + d =~= end);
    assert(c.skip(c.len() - end.len()) =~= end);
}

/// A hash that answers to a password lets it in, and no password that gives
/// another key; one that is salted is the hash of no password under another salt.
pub proof fn a_hash_answers_to_one_key(
    stored: Seq<char>,
    password: Seq<char>,
    other: Seq<char>,
    salt: Seq<u8>,
    another: Seq<u8>,
    rounds: u32,
)
    ensures
        answers_to(stored, password, salt, rounds) ==> password_matches(password, stored) && (
        pbkdf2_sha256(encode_utf8(other), salt, rounds, 32) != pbkdf2_sha256(
            encode_utf8(password),
            salt,
            rounds,
            32,
        ) ==> !password_matches(other, stored)),
        salted_with(stored, salt, rounds) && another != salt ==> hash_text(other, another, rounds)
            != stored,
{
}

} // verus!
