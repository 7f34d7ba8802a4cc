//! Decimal numbers and byte lengths of text.

use vstd::prelude::*;
use vstd::utf8::*;

use crate::text::{chars_of, digit, hex_value, is_digit, is_hex, string_from};

verus! {

// ---------------------------------------------------------------------------
// Writing
// ---------------------------------------------------------------------------

/// The character for a digit from 0 to 9.
pub open spec fn digit_char(d: int) -> char {
    (0x30 + d) as char
}

/// A number in decimal, without leading zeros.
pub open spec fn decimal(n: nat) -> Seq<char>
    decreases n,
{
    if n < 10 {
        seq![digit_char(n as int)]
    } else {
        decimal(n / 10).push(digit_char((n % 10) as int))
    }
}

/// Writes a number in decimal.
pub fn to_decimal(n: u128) -> (r: String)
    ensures
        r@ == decimal(n as nat),
    decreases n,
{
    let last = (0x30u8 + (n % 10) as u8) as char;
    if n < 10 {
        let mut out = String::new();
        out.push(last);
        assert(out@ =~= decimal(n as nat));
        out
    } else {
        let mut out = to_decimal(n / 10);
        out.push(last);
        out
    }
}

/// A signed number in decimal, with a minus sign where it is negative.
pub open spec fn signed_decimal(n: int) -> Seq<char> {
    if n < 0 {
        seq!['-'] + decimal((-n) as nat)
    } else {
        decimal(n as nat)
    }
}

/// Writes a signed number in decimal.
pub fn to_signed_decimal(n: i64) -> (r: String)
    ensures
        r@ == signed_decimal(n as int),
{
    if n < 0 {
        let m: u128 = (-(n as i128)) as u128;
        let d = to_decimal(m);
        let mut out = String::new();
        out.push('-');
        out.append(d.as_str());
        assert(out@ =~= seq!['-'] + d@);
        out
    } else {
        to_decimal(n as u128)
    }
}

// ---------------------------------------------------------------------------
// Reading
// ---------------------------------------------------------------------------

/// Is every character a digit?
pub open spec fn all_digits(s: Seq<char>) -> bool {
    forall|i: int| 0 <= i < s.len() ==> is_digit(#[trigger] s[i])
}

/// The number that a row of digits writes.
pub open spec fn digits_value(s: Seq<char>) -> nat
    decreases s.len(),
{
    if s.len() == 0 {
        0
    } else {
        10 * digits_value(s.drop_last()) + (s.last() as u32 - 0x30) as nat
    }
}

/// The number that the text writes in digits alone; there is at least one.
pub open spec fn parse_digits(s: Seq<char>) -> Option<nat> {
    if s.len() > 0 && all_digits(s) {
        Some(digits_value(s))
    } else {
        None
    }
}

/// The text without one leading plus sign.
pub open spec fn without_plus(s: Seq<char>) -> Seq<char> {
    if s.len() > 0 && s[0] == '+' {
        s.drop_first()
    } else {
        s
    }
}

/// The number that the text writes, if it is written as an optional plus sign
/// and digits, and is at most `max`.
pub open spec fn parse_unsigned(s: Seq<char>, max: nat) -> Option<nat> {
    match parse_digits(without_plus(s)) {
        Some(n) => if n <= max {
            Some(n)
        } else {
            None
        },
        None => None,
    }
}

/// The number that the text writes, if it is written as an optional sign and
/// digits, and lies between `min` and `max`.
pub open spec fn parse_signed(s: Seq<char>, min: int, max: int) -> Option<int> {
    if s.len() > 0 && s[0] == '-' {
        match parse_digits(s.drop_first()) {
            Some(n) => if -(n as int) >= min {
                Some(-(n as int))
            } else {
                None
            },
            None => None,
        }
    } else {
        match parse_digits(without_plus(s)) {
            Some(n) => if n <= max {
                Some(n as int)
            } else {
                None
            },
            None => None,
        }
    }
}

/// The spec value of a parsed number.
pub open spec fn opt_nat(n: Option<u64>) -> Option<nat> {
    match n {
        Some(v) => Some(v as nat),
        None => None,
    }
}

/// More digits never make the number smaller.
proof fn lemma_digits_grow(s: Seq<char>, i: int)
    requires
        0 <= i <= s.len(),
        all_digits(s),
    ensures
        digits_value(s.take(i)) <= digits_value(s),
    decreases s.len(),
{
    if i == s.len() {
        assert(s.take(i) =~= s);
    } else {
        let t = s.drop_last();
        assert(is_digit(s.last()));
        assert(all_digits(t)) by {
            assert forall|j: int| 0 <= j < t.len() implies is_digit(#[trigger] t[j]) by {
                assert(t[j] == s[j]);
            }
        }
        lemma_digits_grow(t, i);
        assert(t.take(i) =~= s.take(i));
    }
}

/// Reads the digits from `from` on, up to `max`.
fn read_digits(v: &Vec<char>, from: usize, max: u64) -> (r: Option<u64>)
    requires
        from <= v@.len(),
    ensures
        match r {
            Some(n) => parse_digits(v@.skip(from as int)) == Some(n as nat) && n <= max,
            None => parse_digits(v@.skip(from as int)) matches Some(n) ==> n > max,
        },
{
    if from == v.len() {
        return None;
    }
    let ghost s = v@.skip(from as int);
    let mut acc: u64 = 0;
    let mut i: usize = from;
    assert(s.take(0) =~= Seq::<char>::empty());
    while i < v.len()
        invariant
            from <= i <= v@.len(),
            s == v@.skip(from as int),
            acc <= max,
            acc == digits_value(s.take(i - from)),
            forall|j: int| 0 <= j < i - from ==> is_digit(#[trigger] s[j]),
        decreases v.len() - i,
    {
        let c = v[i];
        assert(s[i - from] == c);
        if !digit(c) {
            assert(!all_digits(s));
            return None;
        }
        let d: u64 = (c as u32 - 0x30) as u64;
        let wide: u128 = (acc as u128) * 10 + d as u128;
        proof {
            let t = s.take(i - from + 1);
            assert(t.drop_last() =~= s.take(i - from));
            assert(t.last() == c);
            assert(digits_value(t) == wide);
            if all_digits(s) {
                lemma_digits_grow(s, i - from + 1);
            }
        }
        if wide > max as u128 {
            return None;
        }
        acc = wide as u64;
        i = i + 1;
    }
    assert(s.take(i - from) =~= s);
    Some(acc)
}

/// Reads an unsigned number that is at most `max`.
pub fn parse_up_to(s: &str, max: u64) -> (r: Option<u64>)
    ensures
        opt_nat(r) == parse_unsigned(s@, max as nat),
        r matches Some(n) ==> n <= max,
{
    let v = chars_of(s);
    if v.len() > 0 && v[0] == '+' {
        assert(v@.skip(1) =~= s@.drop_first());
        read_digits(&v, 1, max)
    } else {
        assert(v@.skip(0) =~= s@);
        read_digits(&v, 0, max)
    }
}

/// Reads a `u64`.
pub fn parse_u64(s: &str) -> (r: Option<u64>)
    ensures
        opt_nat(r) == parse_unsigned(s@, u64::MAX as nat),
{
    parse_up_to(s, u64::MAX)
}

/// Reads a signed number between `-low` and `high`.
fn parse_between(s: &str, low: u64, high: u64) -> (r: Option<i128>)
    ensures
        match r {
            Some(n) => parse_signed(s@, -(low as int), high as int) == Some(n as int) && -(
            low as int) <= n <= high,
            None => parse_signed(s@, -(low as int), high as int) is None,
        },
{
    let v = chars_of(s);
    if v.len() > 0 && v[0] == '-' {
        assert(v@.skip(1) =~= s@.drop_first());
        match read_digits(&v, 1, low) {
            Some(n) => Some(-(n as i128)),
            None => None,
        }
    } else if v.len() > 0 && v[0] == '+' {
        assert(v@.skip(1) =~= s@.drop_first());
        match read_digits(&v, 1, high) {
            Some(n) => Some(n as i128),
            None => None,
        }
    } else {
        assert(v@.skip(0) =~= s@);
        match read_digits(&v, 0, high) {
            Some(n) => Some(n as i128),
            None => None,
        }
    }
}

/// Reads an `i64`.
pub fn parse_i64(s: &str) -> (r: Option<i64>)
    ensures
        match r {
            Some(n) => parse_signed(s@, i64::MIN as int, i64::MAX as int) == Some(n as int),
            None => parse_signed(s@, i64::MIN as int, i64::MAX as int) is None,
        },
{
    match parse_between(s, 0x8000_0000_0000_0000, 0x7fff_ffff_ffff_ffff) {
        Some(n) => Some(n as i64),
        None => None,
    }
}

// ---------------------------------------------------------------------------
// Writing and reading back
// ---------------------------------------------------------------------------

/// A decimal number is a row of digits that writes the number again.
pub proof fn lemma_decimal(n: nat)
    ensures
        decimal(n).len() > 0,
        all_digits(decimal(n)),
        digits_value(decimal(n)) == n,
    decreases n,
{
    let s = decimal(n);
    if n < 10 {
        assert(s.drop_last() =~= Seq::<char>::empty());
        assert(digits_value(s.drop_last()) == 0);
    } else {
        lemma_decimal(n / 10);
        assert(s.drop_last() =~= decimal(n / 10));
    }
}

/// Reading back what was written gives the number again.
pub proof fn decimal_reads_back(n: nat, max: nat)
    requires
        n <= max,
    ensures
        parse_unsigned(decimal(n), max) == Some(n),
{
    lemma_decimal(n);
    assert(is_digit(decimal(n)[0]));
}

// ---------------------------------------------------------------------------
// Byte lengths
// ---------------------------------------------------------------------------

/// How many bytes the text takes in UTF-8.
pub open spec fn byte_len(s: Seq<char>) -> nat {
    encode_utf8(s).len()
}

/// How many bytes the character takes in UTF-8.
pub open spec fn width(c: char) -> nat {
    if c as u32 <= 0x7f {
        1
    } else if c as u32 <= 0x7ff {
        2
    } else if c as u32 <= 0xffff {
        3
    } else {
        4
    }
}

/// The encoding of joined texts is the joined encodings.
pub proof fn lemma_encode_concat(a: Seq<char>, b: Seq<char>)
    ensures
        encode_utf8(a + b) == encode_utf8(a) + encode_utf8(b),
    decreases a.len(),
{
    if a.len() == 0 {
        assert(a + b =~= b);
        assert(encode_utf8(a) + encode_utf8(b) =~= encode_utf8(b));
    } else {
        assert((a + b).drop_first() =~= a.drop_first() + b);
        lemma_encode_concat(a.drop_first(), b);
        assert(encode_utf8(a + b) =~= encode_utf8(a) + encode_utf8(b));
    }
}

/// One more character adds its width.
pub proof fn lemma_byte_len_push(s: Seq<char>, c: char)
    ensures
        byte_len(s.push(c)) == byte_len(s) + width(c),
{
    assert(s.push(c) =~= s + seq![c]);
    lemma_encode_concat(s, seq![c]);
    lemma_byte_len_first(seq![c]);
    assert(seq![c].drop_first() =~= Seq::<char>::empty());
    assert(encode_utf8(Seq::<char>::empty()).len() == 0);
}

/// How many leading characters of the text fit into `room` bytes.
pub open spec fn fitting(s: Seq<char>, room: nat) -> nat
    decreases s.len(),
{
    if s.len() == 0 || width(s[0]) > room {
        0
    } else {
        1 + fitting(s.drop_first(), (room - width(s[0])) as nat)
    }
}

/// The longest beginning of the text that fits into `room` bytes.
pub open spec fn byte_clipped(s: Seq<char>, room: nat) -> Seq<char> {
    s.take(fitting(s, room) as int)
}

/// One character at the front adds its width.
proof fn lemma_byte_len_first(s: Seq<char>)
    requires
        s.len() > 0,
    ensures
        byte_len(s) == width(s[0]) + byte_len(s.drop_first()),
{
    char_is_scalar(s[0]);
    assert(encode_scalar(s[0] as u32).len() == width(s[0]));
    assert(encode_utf8(s) == encode_scalar(s[0] as u32) + encode_utf8(s.drop_first()));
}

/// `byte_clipped` fits, and it is the longest beginning that does.
pub proof fn byte_clipped_is_the_longest_fit(s: Seq<char>, room: nat)
    ensures
        fitting(s, room) <= s.len(),
        byte_len(byte_clipped(s, room)) <= room,
        fitting(s, room) < s.len() ==> byte_len(s.take(fitting(s, room) as int + 1)) > room,
        byte_len(s) <= room ==> byte_clipped(s, room) == s,
    decreases s.len(),
{
    if s.len() == 0 {
        assert(s.take(0) =~= s);
    } else if width(s[0]) > room {
        assert(s.take(0) =~= Seq::<char>::empty());
        let one = s.take(1);
        lemma_byte_len_first(one);
        lemma_byte_len_first(s);
    } else {
        let t = s.drop_first();
        let left = (room - width(s[0])) as nat;
        byte_clipped_is_the_longest_fit(t, left);
        let n = fitting(t, left) as int;
        assert(s.take(n + 1).drop_first() =~= t.take(n));
        lemma_byte_len_first(s.take(n + 1));
        lemma_byte_len_first(s);
        if n < t.len() {
            assert(s.take(n + 2).drop_first() =~= t.take(n + 1));
            lemma_byte_len_first(s.take(n + 2));
        }
        if byte_len(s) <= room {
            assert(s.take(n + 1) =~= s) by {
                assert(t.take(n).len() == t.len());
            }
        }
    }
}

/// The longest beginning of the text that fits into `room` bytes.
pub fn clip_bytes(s: &str, room: usize) -> (r: String)
    ensures
        r@ == byte_clipped(s@, room as nat),
{
    let v = chars_of(s);
    let mut left: usize = room;
    let mut i: usize = 0;
    assert(v@.skip(0) =~= s@);
    while i < v.len()
        invariant
            i <= v@.len(),
            v@ == s@,
            fitting(s@, room as nat) == i + fitting(v@.skip(i as int), left as nat),
        decreases v.len() - i,
    {
        let n: u32 = v[i] as u32;
        let w: usize = if n <= 0x7f {
            1
        } else if n <= 0x7ff {
            2
        } else if n <= 0xffff {
            3
        } else {
            4
        };
        assert(v@.skip(i as int)[0] == v@[i as int]);
        if w > left {
            let r = string_from(&v, 0, i);
            assert(r@ =~= byte_clipped(s@, room as nat));
            return r;
        }
        assert(v@.skip(i as int).drop_first() =~= v@.skip(i + 1));
        left = left - w;
        i = i + 1;
    }
    let r = string_from(&v, 0, v.len());
    assert(r@ =~= byte_clipped(s@, room as nat));
    r
}

// ---------------------------------------------------------------------------
// Hexadecimal
// ---------------------------------------------------------------------------

/// The byte that two hexadecimal digits write.
pub open spec fn hex_pair(a: char, b: char) -> u8 {
    (16 * hex_value(a) + hex_value(b)) as u8
}

/// The lower-case hexadecimal digit for a value below 16.
pub open spec fn hex_low(d: int) -> char {
    if d < 10 {
        (0x30 + d) as char
    } else {
        (0x61 + d - 10) as char
    }
}

/// The upper-case hexadecimal digit for a value below 16.
pub open spec fn hex_high(d: int) -> char {
    if d < 10 {
        (0x30 + d) as char
    } else {
        (0x41 + d - 10) as char
    }
}

/// Bytes in lower-case hexadecimal, two digits each.
pub open spec fn hex_text(b: Seq<u8>) -> Seq<char>
    decreases b.len(),
{
    if b.len() == 0 {
        seq![]
    } else {
        hex_text(b.drop_last()).push(hex_low(b.last() as int / 16)).push(
            hex_low(b.last() as int % 16),
        )
    }
}

/// Writes bytes in lower-case hexadecimal.
pub fn to_hex(b: &Vec<u8>) -> (r: String)
    ensures
        r@ == hex_text(b@),
{
    let mut out = String::new();
    let mut i: usize = 0;
    while i < b.len()
        invariant
            i <= b@.len(),
            out@ == hex_text(b@.take(i as int)),
        decreases b.len() - i,
    {
        let hi: u8 = b[i] / 16;
        let lo: u8 = b[i] % 16;
        let x = if hi < 10 {
            (0x30 + hi) as char
        } else {
            (0x61 + (hi - 10)) as char
        };
        let y = if lo < 10 {
            (0x30 + lo) as char
        } else {
            (0x61 + (lo - 10)) as char
        };
        out.push(x);
        out.push(y);
        i = i + 1;
        assert(b@.take(i as int).drop_last() =~= b@.take(i - 1));
    }
    assert(b@.take(i as int) =~= b@);
    out
}

// ---------------------------------------------------------------------------
// Laws of reading
// ---------------------------------------------------------------------------

/// A signed number reads back as itself, and a plus sign in front changes
/// nothing.
pub proof fn signed_decimal_reads_back(n: int, min: int, max: int)
    requires
        min <= n <= max,
    ensures
        parse_signed(signed_decimal(n), min, max) == Some(n),
        n >= 0 ==> parse_signed(seq!['+'] + signed_decimal(n), min, max) == Some(n),
        n >= 0 ==> parse_unsigned(seq!['+'] + decimal(n as nat), max as nat) == Some(n as nat),
{
    if n < 0 {
        lemma_decimal((-n) as nat);
        assert(signed_decimal(n).drop_first() =~= decimal((-n) as nat));
    } else {
        let d = decimal(n as nat);
        lemma_decimal(n as nat);
        assert(is_digit(d[0]));
        assert((seq!['+'] + d).drop_first() =~= d);
    }
}

/// What is read as a number is written in digits, at least one, with at most one
/// sign in front; and it is within its bounds.
pub proof fn only_digits_are_numbers(s: Seq<char>, max: nat, low: int, high: int)
    ensures
        match parse_unsigned(s, max) {
            Some(n) => n <= max && s.len() > 0 && is_digit(s.last()) && (is_digit(s[0]) || s[0]
                == '+') && forall|i: int| 1 <= i < s.len() ==> is_digit(#[trigger] s[i]),
            None => true,
        },
        match parse_signed(s, low, high) {
            Some(n) => s.len() > 0 && is_digit(s.last()) && (is_digit(s[0]) || s[0] == '+' || s[0]
                == '-') && (forall|i: int| 1 <= i < s.len() ==> is_digit(#[trigger] s[i])) && (n < 0
                ==> s[0] == '-' && low <= n) && (s[0] != '-' ==> n <= high),
            None => true,
        },
        all_digits(s) && s.len() > 0 && digits_value(s) <= max ==> parse_unsigned(s, max) == Some(
            digits_value(s),
        ),
{
    if s.len() > 0 {
        let t = s.drop_first();
        assert forall|i: int| 1 <= i < s.len() && all_digits(t) implies is_digit(#[trigger] s[i]) by {
            assert(is_digit(t[i - 1]));
        }
        if s.len() > 1 {
            assert(t.last() == s.last());
        }
        if all_digits(s) {
            assert(is_digit(s[0]));
        }
    }
}

/// One more digit makes the number ten times as large, and adds the digit.
pub proof fn a_digit_more_is_a_decimal_place_more(s: Seq<char>, d: int)
    requires
        0 <= d <= 9,
    ensures
        digits_value(s.push(digit_char(d))) == 10 * digits_value(s) + d,
        digits_value(seq![]) == 0,
{
    assert(s.push(digit_char(d)).drop_last() =~= s);
}

/// Bytes in hexadecimal take two lower-case digits each, and the two write the
/// byte.
pub proof fn hex_text_reads_back(b: Seq<u8>, i: int)
    requires
        0 <= i < b.len(),
    ensures
        hex_text(b).len() == 2 * b.len(),
        is_hex(hex_text(b)[2 * i]),
        is_hex(hex_text(b)[2 * i + 1]),
        hex_pair(hex_text(b)[2 * i], hex_text(b)[2 * i + 1]) == b[i],
        !('A' <= hex_text(b)[2 * i] <= 'F'),
        !('A' <= hex_text(b)[2 * i + 1] <= 'F'),
    decreases b.len(),
{
    let front = b.drop_last();
    lemma_hex_len(front);
    if i < b.len() - 1 {
        hex_text_reads_back(front, i);
        assert(front[i] == b[i]);
        assert(hex_text(b)[2 * i] == hex_text(front)[2 * i]);
        assert(hex_text(b)[2 * i + 1] == hex_text(front)[2 * i + 1]);
    } else {
        let n = b.last() as int;
        assert(n == 16 * (n / 16) + n % 16);
    }
}

/// Bytes in hexadecimal take two digits each.
proof fn lemma_hex_len(b: Seq<u8>)
    ensures
        hex_text(b).len() == 2 * b.len(),
    decreases b.len(),
{
    if b.len() > 0 {
        lemma_hex_len(b.drop_last());
    }
}

/// The digits of a hexadecimal number have their usual values, in either case.
pub proof fn hex_digits_have_their_values(d: int)
    requires
        0 <= d < 16,
    ensures
        is_hex(hex_low(d)) && hex_value(hex_low(d)) == d,
        is_hex(hex_high(d)) && hex_value(hex_high(d)) == d,
        !('A' <= hex_low(d) <= 'F'),
        !('a' <= hex_high(d) <= 'f'),
{
}

} // verus!
