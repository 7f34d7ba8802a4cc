//! Percent-encoding.

use vstd::prelude::*;
use vstd::utf8::*;

use crate::numbers::{hex_high, hex_pair};
use crate::text::{hex_value, is_alnum, is_hex};

verus! {

/// Is this the byte of an ASCII letter or digit?
pub open spec fn is_alnum_byte(b: u8) -> bool {
    0x30 <= b <= 0x39 || 0x41 <= b <= 0x5a || 0x61 <= b <= 0x7a
}

/// Does the byte stand for itself? Letters, digits and `-`, `_`, `.` and `~` do,
/// and a slash does where it is to be kept.
pub open spec fn is_kept(b: u8, slash: bool) -> bool {
    is_alnum_byte(b) || b == 0x2d || b == 0x5f || b == 0x2e || b == 0x7e || (slash && b == 0x2f)
}

/// How a byte is written.
pub open spec fn byte_form(b: u8, slash: bool) -> Seq<char> {
    if is_kept(b, slash) {
        seq![b as char]
    } else {
        seq!['%', hex_high(b as int / 16), hex_high(b as int % 16)]
    }
}

/// How bytes are written, one after the other.
pub open spec fn encoded(bytes: Seq<u8>, slash: bool) -> Seq<char>
    decreases bytes.len(),
{
    if bytes.len() == 0 {
        seq![]
    } else {
        encoded(bytes.drop_last(), slash) + byte_form(bytes.last(), slash)
    }
}

/// The bytes that percent-encoded text stands for.
pub open spec fn decoded(s: Seq<char>) -> Option<Seq<u8>>
    decreases s.len(),
{
    if s.len() == 0 {
        Some(seq![])
    } else if s[0] == '%' {
        if s.len() >= 3 && is_hex(s[1]) && is_hex(s[2]) {
            match decoded(s.skip(3)) {
                Some(rest) => Some(seq![hex_pair(s[1], s[2])] + rest),
                None => None,
            }
        } else {
            None
        }
    } else if s[0] as u32 <= 0x7f {
        match decoded(s.drop_first()) {
            Some(rest) => Some(seq![s[0] as u8] + rest),
            None => None,
        }
    } else {
        None
    }
}

/// `encoded` can be read from the front as well.
proof fn lemma_encoded_front(bytes: Seq<u8>, slash: bool)
    requires
        bytes.len() > 0,
    ensures
        encoded(bytes, slash) == byte_form(bytes[0], slash) + encoded(bytes.drop_first(), slash),
    decreases bytes.len(),
{
    if bytes.len() == 1 {
        assert(bytes.drop_last() =~= Seq::<u8>::empty());
        assert(bytes.drop_first() =~= Seq::<u8>::empty());
        assert(encoded(bytes, slash) =~= byte_form(bytes[0], slash) + encoded(
            bytes.drop_first(),
            slash,
        ));
    } else {
        lemma_encoded_front(bytes.drop_last(), slash);
        assert(bytes.drop_last().drop_first() =~= bytes.drop_first().drop_last());
        assert(encoded(bytes, slash) =~= byte_form(bytes[0], slash) + encoded(
            bytes.drop_first(),
            slash,
        ));
    }
}

/// Decoding gives back every byte that was encoded.
pub proof fn encoding_can_be_undone(bytes: Seq<u8>, slash: bool)
    ensures
        decoded(encoded(bytes, slash)) == Some(bytes),
    decreases bytes.len(),
{
    let s = encoded(bytes, slash);
    if bytes.len() == 0 {
        assert(bytes =~= Seq::<u8>::empty());
    } else {
        let rest = bytes.drop_first();
        let b = bytes[0];
        lemma_encoded_front(bytes, slash);
        encoding_can_be_undone(rest, slash);
        assert(bytes =~= seq![b] + rest);
        if is_kept(b, slash) {
            assert(s.drop_first() =~= encoded(rest, slash));
        } else {
            assert(s.skip(3) =~= encoded(rest, slash));
            lemma_hex_pair(b);
        }
    }
}

/// The two digits of a byte write the byte.
proof fn lemma_hex_pair(b: u8)
    ensures
        is_hex(hex_high(b as int / 16)),
        is_hex(hex_high(b as int % 16)),
        hex_pair(hex_high(b as int / 16), hex_high(b as int % 16)) == b,
{
    let hi = b as int / 16;
    let lo = b as int % 16;
    assert(0 <= hi < 16 && 0 <= lo < 16 && b == 16 * hi + lo);
    assert(hex_value(hex_high(hi)) == hi);
    assert(hex_value(hex_high(lo)) == lo);
}

/// Encoded text is made of letters, digits, `-`, `_`, `.`, `~` and percent
/// signs, and of slashes where they are kept: nothing in it is query syntax.
pub proof fn encoded_text_is_plain(bytes: Seq<u8>, slash: bool, i: int)
    requires
        0 <= i < encoded(bytes, slash).len(),
    ensures
        ({
            let c = encoded(bytes, slash)[i];
            is_alnum(c) || c == '-' || c == '_' || c == '.' || c == '~' || c == '%' || (slash && c
                == '/')
        }),
    decreases bytes.len(),
{
    let before = encoded(bytes.drop_last(), slash);
    if i < before.len() {
        encoded_text_is_plain(bytes.drop_last(), slash, i);
        assert(encoded(bytes, slash)[i] == before[i]);
    } else {
        let b = bytes.last();
        lemma_hex_pair(b);
        assert(encoded(bytes, slash)[i] == byte_form(b, slash)[i - before.len()]);
    }
}

/// The upper-case hexadecimal digit for a value below 16.
fn hex_char(d: u8) -> (r: char)
    requires
        d < 16,
    ensures
        r == hex_high(d as int),
{
    if d < 10 {
        (0x30 + d) as char
    } else {
        (0x41 + (d - 10)) as char
    }
}

/// Percent-encodes the bytes of a text.
pub fn encode(s: &str, slash: bool) -> (r: String)
    ensures
        r@ == encoded(encode_utf8(s@), slash),
{
    let bytes = s.as_bytes();
    let mut out = String::new();
    let mut i: usize = 0;
    assert(bytes@.take(0) =~= Seq::<u8>::empty());
    while i < bytes.len()
        invariant
            i <= bytes@.len(),
            out@ == encoded(bytes@.take(i as int), slash),
        decreases bytes.len() - i,
    {
        let b: u8 = bytes[i];
        let ghost before = out@;
        if (0x30 <= b && b <= 0x39) || (0x41 <= b && b <= 0x5a) || (0x61 <= b && b <= 0x7a) || b
            == 0x2d || b == 0x5f || b == 0x2e || b == 0x7e || (slash && b == 0x2f) {
            out.push(b as char);
        } else {
            out.push('%');
            out.push(hex_char(b / 16));
            out.push(hex_char(b % 16));
        }
        assert(out@ =~= before + byte_form(b, slash));
        i = i + 1;
        assert(bytes@.take(i as int).drop_last() =~= bytes@.take(i - 1));
    }
    assert(bytes@.take(i as int) =~= bytes@);
    out
}

/// Encodes a text for one segment of a path.
pub fn urlencode(s: &str) -> (r: String)
    ensures
        r@ == encoded(encode_utf8(s@), false),
{
    encode(s, false)
}

/// Encodes a path for a query: slashes stay, so the path can still be read.
pub fn encode_path(path: &str) -> (r: String)
    ensures
        r@ == encoded(encode_utf8(path@), true),
{
    encode(path, true)
}

/// A letter, a digit and the signs `-`, `_`, `.` and `~` stand for themselves; a
/// slash does where it is to be kept. Every other byte is written as a percent
/// sign and two capital digits that write it.
pub proof fn a_byte_is_kept_or_written_in_two_digits(b: u8, slash: bool)
    ensures
        ({
            let e = encoded(seq![b], slash);
            let plain = 0x30 <= b <= 0x39 || 0x41 <= b <= 0x5a || 0x61 <= b <= 0x7a || b == 0x2d || b
                == 0x2e || b == 0x5f || b == 0x7e || (b == 0x2f && slash);
            &&& plain ==> e.len() == 1 && e[0] as u32 == b as u32
            &&& !plain ==> e.len() == 3 && e[0] == '%' && hex_pair(e[1], e[2]) == b && !('a' <= e[1]
                <= 'z') && !('a' <= e[2] <= 'z')
        }),
{
    reveal_with_fuel(encoded, 2);
    lemma_hex_pair(b);
    assert(seq![b].drop_last() =~= Seq::<u8>::empty());
    assert(encoded(seq![b], slash) =~= byte_form(b, slash));
}

/// Texts are written one after the other.
pub proof fn encoding_goes_byte_by_byte(a: Seq<u8>, b: Seq<u8>, slash: bool)
    ensures
        encoded(a + b, slash) == encoded(a, slash) + encoded(b, slash),
    decreases b.len(),
{
    if b.len() == 0 {
        assert(a + b =~= a);
        assert(encoded(a, slash) + encoded(b, slash) =~= encoded(a, slash));
    } else {
        encoding_goes_byte_by_byte(a, b.drop_last(), slash);
        assert((a + b).drop_last() =~= a + b.drop_last());
        assert((a + b).last() == b.last());
        assert(encoded(a, slash) + (encoded(b.drop_last(), slash) + byte_form(b.last(), slash))
            =~= (encoded(a, slash) + encoded(b.drop_last(), slash)) + byte_form(b.last(), slash));
    }
}

} // verus!
