//! Text operations on characters, with their meaning stated over `Seq<char>`.
//!
//! Every other module builds on these: splitting, trimming, searching, decimal
//! numbers and the ordering of strings. The executable functions take `&str`,
//! work on the characters, and hand owned strings back.

use vstd::prelude::*;

verus! {

/// `String::push` appends one character to the end of the string. The standard
/// library is believed on this one point: everything that is written a
/// character at a time rests on it.
pub assume_specification[ String::push ](s: &mut String, c: char)
    ensures
        final(s)@ == old(s)@.push(c),
;

// ---------------------------------------------------------------------------
// Views
// ---------------------------------------------------------------------------

/// The texts of a list of strings.
pub open spec fn views(v: Seq<String>) -> Seq<Seq<char>> {
    Seq::new(v.len(), |i: int| v[i]@)
}

/// The text of an optional string.
pub open spec fn opt_view(s: Option<String>) -> Option<Seq<char>> {
    match s {
        Some(t) => Some(t@),
        None => None,
    }
}

/// The characters of a string, one by one.
pub fn chars_of(s: &str) -> (r: Vec<char>)
    ensures
        r@ == s@,
{
    let mut out: Vec<char> = Vec::new();
    for c in it: s.chars()
        invariant
            out@ == it.seq().take(it.index() as int),
            it.seq() == s@,
    {
        out.push(c);
    }
    out
}

/// The string made of the characters from `lo` up to, not including, `hi`.
pub fn string_from(v: &Vec<char>, lo: usize, hi: usize) -> (r: String)
    requires
        lo <= hi <= v@.len(),
    ensures
        r@ == v@.subrange(lo as int, hi as int),
{
    let mut out = String::new();
    let mut i: usize = lo;
    while i < hi
        invariant
            lo <= i <= hi <= v@.len(),
            out@ == v@.subrange(lo as int, i as int),
        decreases hi - i,
    {
        out.push(v[i]);
        i = i + 1;
        assert(v@.subrange(lo as int, i as int) =~= v@.subrange(lo as int, i - 1).push(v@[i - 1]));
    }
    out
}

/// Is `a` the same text as `b`?
pub fn same(a: &str, b: &str) -> (r: bool)
    ensures
        r == (a@ == b@),
{
    let x = chars_of(a);
    let y = chars_of(b);
    if x.len() != y.len() {
        return false;
    }
    let mut i: usize = 0;
    while i < x.len()
        invariant
            i <= x@.len(),
            x@.len() == y@.len(),
            x@ == a@,
            y@ == b@,
            forall|j: int| 0 <= j < i ==> x@[j] == y@[j],
        decreases x.len() - i,
    {
        if x[i] != y[i] {
            assert(a@[i as int] != b@[i as int]);
            return false;
        }
        i = i + 1;
    }
    assert(a@ =~= b@);
    true
}

/// Does the list hold this text?
pub fn listed(list: &Vec<String>, s: &str) -> (r: bool)
    ensures
        r == views(list@).contains(s@),
{
    let mut i: usize = 0;
    while i < list.len()
        invariant
            i <= list@.len(),
            forall|j: int| 0 <= j < i ==> views(list@)[j] != s@,
        decreases list.len() - i,
    {
        if same(list[i].as_str(), s) {
            assert(views(list@)[i as int] == s@);
            return true;
        }
        i = i + 1;
    }
    false
}

/// Where the text stands first in the list.
pub open spec fn position(list: Seq<Seq<char>>, s: Seq<char>) -> Option<nat>
    decreases list.len(),
{
    if list.len() == 0 {
        None
    } else if list[0] == s {
        Some(0)
    } else {
        match position(list.drop_first(), s) {
            Some(i) => Some(i + 1),
            None => None,
        }
    }
}

/// What `position` finds: the first place that holds the text.
pub proof fn lemma_position(list: Seq<Seq<char>>, s: Seq<char>)
    ensures
        match position(list, s) {
            Some(i) => i < list.len() && list[i as int] == s && forall|j: int|
                0 <= j < i ==> list[j] != s,
            None => forall|j: int| 0 <= j < list.len() ==> list[j] != s,
        },
    decreases list.len(),
{
    if list.len() > 0 && list[0] != s {
        let t = list.drop_first();
        lemma_position(t, s);
        match position(t, s) {
            Some(i) => {
                assert(t[i as int] == list[i as int + 1]);
                assert forall|j: int| 0 <= j < i + 1 implies list[j] != s by {
                    if j > 0 {
                        assert(t[j - 1] == list[j]);
                    }
                }
            },
            None => {
                assert forall|j: int| 0 <= j < list.len() implies list[j] != s by {
                    if j > 0 {
                        assert(t[j - 1] == list[j]);
                    }
                }
            },
        }
    }
}

/// There is only one first place that holds the text.
pub proof fn lemma_position_is(list: Seq<Seq<char>>, s: Seq<char>, i: int)
    requires
        0 <= i < list.len(),
        list[i] == s,
        forall|j: int| 0 <= j < i ==> list[j] != s,
    ensures
        position(list, s) == Some(i as nat),
{
    lemma_position(list, s);
    match position(list, s) {
        Some(k) => {
            if k < i {
                assert(list[k as int] != s);
            } else if i < k {
                assert(list[i] != s);
            }
        },
        None => {
            assert(list[i] != s);
        },
    }
}

/// The list without a text.
pub open spec fn without(list: Seq<Seq<char>>, s: Seq<char>) -> Seq<Seq<char>>
    decreases list.len(),
{
    if list.len() == 0 {
        list
    } else if list.last() == s {
        without(list.drop_last(), s)
    } else {
        without(list.drop_last(), s).push(list.last())
    }
}

/// A copy of a list of strings without a text.
pub fn copy_without(list: &Vec<String>, s: &str) -> (r: Vec<String>)
    ensures
        views(r@) == without(views(list@), s@),
{
    let ghost lv = views(list@);
    let mut out: Vec<String> = Vec::new();
    let mut i: usize = 0;
    assert(views(out@) =~= without(lv.take(0), s@));
    while i < list.len()
        invariant
            i <= list@.len(),
            lv == views(list@),
            views(out@) == without(lv.take(i as int), s@),
        decreases list.len() - i,
    {
        let ghost before = views(out@);
        assert(lv.take(i + 1).drop_last() =~= lv.take(i as int));
        assert(lv.take(i + 1).last() == list@[i as int]@);
        if !same(list[i].as_str(), s) {
            out.push(list[i].clone());
            assert(views(out@) =~= before.push(list@[i as int]@));
        }
        i = i + 1;
    }
    assert(lv.take(i as int) =~= lv);
    out
}

/// Joins two texts.
pub fn concat2(a: &str, b: &str) -> (r: String)
    ensures
        r@ == a@ + b@,
{
    let mut out = String::from_str(a);
    out.append(b);
    out
}

/// Joins three texts.
pub fn concat3(a: &str, b: &str, c: &str) -> (r: String)
    ensures
        r@ == a@ + b@ + c@,
{
    let mut out = String::from_str(a);
    out.append(b);
    out.append(c);
    out
}

// ---------------------------------------------------------------------------
// Character classes
// ---------------------------------------------------------------------------

/// The characters with the Unicode property `White_Space`.
pub open spec fn is_space(c: char) -> bool {
    let n = c as u32;
    ||| 0x09 <= n <= 0x0d
    ||| n == 0x20
    ||| n == 0x85
    ||| n == 0xa0
    ||| n == 0x1680
    ||| 0x2000 <= n <= 0x200a
    ||| n == 0x2028
    ||| n == 0x2029
    ||| n == 0x202f
    ||| n == 0x205f
    ||| n == 0x3000
}

/// Is this a white-space character?
pub fn space(c: char) -> (r: bool)
    ensures
        r == is_space(c),
{
    let n: u32 = c as u32;
    (0x09 <= n && n <= 0x0d) || n == 0x20 || n == 0x85 || n == 0xa0 || n == 0x1680 || (0x2000 <= n
        && n <= 0x200a) || n == 0x2028 || n == 0x2029 || n == 0x202f || n == 0x205f || n == 0x3000
}

/// The control characters: the Unicode category `Cc`.
pub open spec fn is_control(c: char) -> bool {
    c as u32 <= 0x1f || 0x7f <= c as u32 <= 0x9f
}

/// Is this a control character?
pub fn control(c: char) -> (r: bool)
    ensures
        r == is_control(c),
{
    let n: u32 = c as u32;
    n <= 0x1f || (0x7f <= n && n <= 0x9f)
}

/// The ten ASCII digits.
pub open spec fn is_digit(c: char) -> bool {
    '0' <= c <= '9'
}

/// The ASCII letters.
pub open spec fn is_alpha(c: char) -> bool {
    ('a' <= c <= 'z') || ('A' <= c <= 'Z')
}

/// ASCII letters and digits.
pub open spec fn is_alnum(c: char) -> bool {
    is_alpha(c) || is_digit(c)
}

/// The hexadecimal digits, in either case.
pub open spec fn is_hex(c: char) -> bool {
    is_digit(c) || ('a' <= c <= 'f') || ('A' <= c <= 'F')
}

/// The value of a hexadecimal digit.
pub open spec fn hex_value(c: char) -> int {
    if is_digit(c) {
        c as u32 - 0x30
    } else if 'a' <= c <= 'f' {
        c as u32 - 0x61 + 10
    } else {
        c as u32 - 0x41 + 10
    }
}

/// Is this an ASCII digit?
pub fn digit(c: char) -> (r: bool)
    ensures
        r == is_digit(c),
{
    '0' <= c && c <= '9'
}

/// Is this an ASCII letter?
pub fn alpha(c: char) -> (r: bool)
    ensures
        r == is_alpha(c),
{
    ('a' <= c && c <= 'z') || ('A' <= c && c <= 'Z')
}

/// Is this an ASCII letter or digit?
pub fn alnum(c: char) -> (r: bool)
    ensures
        r == is_alnum(c),
{
    alpha(c) || digit(c)
}

/// The value of a hexadecimal digit, if it is one.
pub fn hex_digit(c: char) -> (r: Option<u8>)
    ensures
        r matches Some(v) ==> is_hex(c) && v == hex_value(c) && v < 16,
        r is None ==> !is_hex(c),
{
    let n: u32 = c as u32;
    if digit(c) {
        Some((n - 0x30) as u8)
    } else if 'a' <= c && c <= 'f' {
        Some((n - 0x61 + 10) as u8)
    } else if 'A' <= c && c <= 'F' {
        Some((n - 0x41 + 10) as u8)
    } else {
        None
    }
}

/// The lower-case form of an ASCII letter; any other character is kept.
pub open spec fn lower_char(c: char) -> char {
    if 'A' <= c <= 'Z' {
        (c as u32 + 32) as char
    } else {
        c
    }
}

/// The text with every ASCII letter in lower case.
pub open spec fn ascii_lower(s: Seq<char>) -> Seq<char> {
    s.map_values(|c: char| lower_char(c))
}

/// ASCII lower case.
pub fn to_ascii_lower(s: &str) -> (r: String)
    ensures
        r@ == ascii_lower(s@),
{
    let v = chars_of(s);
    let mut out = String::new();
    let mut i: usize = 0;
    while i < v.len()
        invariant
            i <= v@.len(),
            v@ == s@,
            out@ == ascii_lower(s@).take(i as int),
        decreases v.len() - i,
    {
        let c = v[i];
        let d: char = if 'A' <= c && c <= 'Z' {
            ((c as u8) + 32) as char
        } else {
            c
        };
        out.push(d);
        i = i + 1;
        assert(ascii_lower(s@).take(i as int) =~= ascii_lower(s@).take(i - 1).push(
            lower_char(s@[i - 1]),
        ));
    }
    assert(ascii_lower(s@).take(i as int) =~= ascii_lower(s@));
    out
}

// ---------------------------------------------------------------------------
// Trimming
// ---------------------------------------------------------------------------

/// The text without the leading characters that `set` holds.
pub open spec fn trim_start_of(s: Seq<char>, set: Seq<char>) -> Seq<char>
    decreases s.len(),
{
    if s.len() > 0 && set.contains(s[0]) {
        trim_start_of(s.drop_first(), set)
    } else {
        s
    }
}

/// The text without the trailing characters that `set` holds.
pub open spec fn trim_end_of(s: Seq<char>, set: Seq<char>) -> Seq<char>
    decreases s.len(),
{
    if s.len() > 0 && set.contains(s.last()) {
        trim_end_of(s.drop_last(), set)
    } else {
        s
    }
}

/// The text without leading white space.
pub open spec fn trim_left(s: Seq<char>) -> Seq<char>
    decreases s.len(),
{
    if s.len() > 0 && is_space(s[0]) {
        trim_left(s.drop_first())
    } else {
        s
    }
}

/// The text without trailing white space.
pub open spec fn trim_right(s: Seq<char>) -> Seq<char>
    decreases s.len(),
{
    if s.len() > 0 && is_space(s.last()) {
        trim_right(s.drop_last())
    } else {
        s
    }
}

/// The text without white space at either end.
pub open spec fn trimmed(s: Seq<char>) -> Seq<char> {
    trim_right(trim_left(s))
}

/// Is there nothing but white space in the text?
pub open spec fn is_blank(s: Seq<char>) -> bool {
    trimmed(s).len() == 0
}

/// Where the text starts once leading white space is skipped.
fn left_edge(v: &Vec<char>) -> (lo: usize)
    ensures
        lo <= v@.len(),
        trim_left(v@) == v@.subrange(lo as int, v@.len() as int),
{
    let mut lo: usize = 0;
    assert(v@.subrange(0, v@.len() as int) =~= v@);
    while lo < v.len() && space(v[lo])
        invariant
            lo <= v@.len(),
            trim_left(v@) == trim_left(v@.subrange(lo as int, v@.len() as int)),
        decreases v.len() - lo,
    {
        assert(v@.subrange(lo as int, v@.len() as int).drop_first() =~= v@.subrange(
            lo + 1,
            v@.len() as int,
        ));
        lo = lo + 1;
    }
    lo
}

/// Removes white space at both ends.
pub fn trim(s: &str) -> (r: String)
    ensures
        r@ == trimmed(s@),
{
    let v = chars_of(s);
    let lo = left_edge(&v);
    let mut hi: usize = v.len();
    while lo < hi && space(v[hi - 1])
        invariant
            lo <= hi <= v@.len(),
            trim_right(v@.subrange(lo as int, v@.len() as int)) == trim_right(
                v@.subrange(lo as int, hi as int),
            ),
        decreases hi,
    {
        assert(v@.subrange(lo as int, hi as int).drop_last() =~= v@.subrange(lo as int, hi - 1));
        hi = hi - 1;
    }
    string_from(&v, lo, hi)
}

/// Is there nothing but white space in the text?
pub fn blank(s: &str) -> (r: bool)
    ensures
        r == is_blank(s@),
{
    let t = trim(s);
    t.as_str().is_empty()
}

/// Does the set hold this character?
fn in_set(set: &Vec<char>, c: char) -> (r: bool)
    ensures
        r == set@.contains(c),
{
    let mut i: usize = 0;
    while i < set.len()
        invariant
            i <= set@.len(),
            forall|j: int| 0 <= j < i ==> set@[j] != c,
        decreases set.len() - i,
    {
        if set[i] == c {
            assert(set@[i as int] == c);
            return true;
        }
        i = i + 1;
    }
    false
}

/// Removes leading characters that the text `set` holds.
pub fn trim_start_set(s: &str, set: &str) -> (r: String)
    ensures
        r@ == trim_start_of(s@, set@),
{
    let v = chars_of(s);
    let w = chars_of(set);
    let mut lo: usize = 0;
    assert(v@.subrange(0, v@.len() as int) =~= v@);
    while lo < v.len() && in_set(&w, v[lo])
        invariant
            lo <= v@.len(),
            w@ == set@,
            trim_start_of(v@, set@) == trim_start_of(v@.subrange(lo as int, v@.len() as int), set@),
        decreases v.len() - lo,
    {
        assert(v@.subrange(lo as int, v@.len() as int).drop_first() =~= v@.subrange(
            lo + 1,
            v@.len() as int,
        ));
        lo = lo + 1;
    }
    string_from(&v, lo, v.len())
}

/// Removes trailing characters that the text `set` holds.
pub fn trim_end_set(s: &str, set: &str) -> (r: String)
    ensures
        r@ == trim_end_of(s@, set@),
{
    let v = chars_of(s);
    let w = chars_of(set);
    let mut hi: usize = v.len();
    assert(v@.subrange(0, v@.len() as int) =~= v@);
    while 0 < hi && in_set(&w, v[hi - 1])
        invariant
            hi <= v@.len(),
            w@ == set@,
            trim_end_of(v@, set@) == trim_end_of(v@.subrange(0, hi as int), set@),
        decreases hi,
    {
        assert(v@.subrange(0, hi as int).drop_last() =~= v@.subrange(0, hi - 1));
        hi = hi - 1;
    }
    string_from(&v, 0, hi)
}

// ---------------------------------------------------------------------------
// Searching
// ---------------------------------------------------------------------------

/// Does the text begin with `p`?
pub open spec fn begins(s: Seq<char>, p: Seq<char>) -> bool {
    p.len() <= s.len() && s.subrange(0, p.len() as int) == p
}

/// Does the text hold `p` at some place?
pub open spec fn holds(s: Seq<char>, p: Seq<char>) -> bool {
    exists|i: int| #[trigger] holds_at(s, p, i)
}

/// Does the text hold `p` at the place `i`?
pub open spec fn holds_at(s: Seq<char>, p: Seq<char>, i: int) -> bool {
    0 <= i <= s.len() - p.len() && s.subrange(i, i + p.len()) == p
}

/// Does `v` hold `p` at the place `i`?
fn match_at(v: &Vec<char>, p: &Vec<char>, i: usize) -> (r: bool)
    requires
        i <= v@.len(),
    ensures
        r == holds_at(v@, p@, i as int),
{
    if p.len() > v.len() - i {
        return false;
    }
    let mut j: usize = 0;
    while j < p.len()
        invariant
            j <= p@.len(),
            i + p@.len() <= v.len(),
            forall|k: int| 0 <= k < j ==> v@[i + k] == p@[k],
        decreases p.len() - j,
    {
        if v[i + j] != p[j] {
            assert(v@.subrange(i as int, i + p@.len())[j as int] != p@[j as int]);
            return false;
        }
        j = j + 1;
    }
    assert(v@.subrange(i as int, i + p@.len()) =~= p@);
    true
}

/// Does the text begin with `p`?
pub fn starts_with(s: &str, p: &str) -> (r: bool)
    ensures
        r == begins(s@, p@),
{
    let v = chars_of(s);
    let w = chars_of(p);
    match_at(&v, &w, 0)
}

/// Does the text hold `p` somewhere?
pub fn contains(s: &str, p: &str) -> (r: bool)
    ensures
        r == holds(s@, p@),
{
    let v = chars_of(s);
    let w = chars_of(p);
    let mut i: usize = 0;
    while i < v.len()
        invariant
            i <= v@.len(),
            v@ == s@,
            w@ == p@,
            forall|k: int| 0 <= k < i ==> !holds_at(s@, p@, k),
        decreases v.len() - i,
    {
        if match_at(&v, &w, i) {
            return true;
        }
        i = i + 1;
    }
    let last = match_at(&v, &w, i);
    proof {
        if holds(s@, p@) {
            let k = choose|k: int| holds_at(s@, p@, k);
            assert(0 <= k <= v@.len());
        }
    }
    last
}

/// Does the text hold the character?
pub fn has_char(s: &str, c: char) -> (r: bool)
    ensures
        r == s@.contains(c),
{
    let v = chars_of(s);
    in_set(&v, c)
}

// ---------------------------------------------------------------------------
// Splitting
// ---------------------------------------------------------------------------

/// The place of the first `c`, or the length of the text where there is none.
pub open spec fn find(s: Seq<char>, c: char) -> nat
    decreases s.len(),
{
    if s.len() == 0 || s[0] == c {
        0
    } else {
        1 + find(s.drop_first(), c)
    }
}

/// What `find` finds.
pub proof fn lemma_find(s: Seq<char>, c: char)
    ensures
        find(s, c) <= s.len(),
        forall|j: int| 0 <= j < find(s, c) ==> s[j] != c,
        find(s, c) < s.len() ==> s[find(s, c) as int] == c,
    decreases s.len(),
{
    if s.len() == 0 || s[0] == c {
    } else {
        let t = s.drop_first();
        lemma_find(t, c);
        assert forall|j: int| 0 <= j < find(s, c) implies s[j] != c by {
            if j > 0 {
                assert(t[j - 1] == s[j]);
            }
        }
    }
}

/// There is only one place that `find` can name.
pub proof fn lemma_find_is(s: Seq<char>, c: char, i: nat)
    requires
        i <= s.len(),
        forall|j: int| 0 <= j < i ==> s[j] != c,
        i < s.len() ==> s[i as int] == c,
    ensures
        find(s, c) == i,
{
    lemma_find(s, c);
    let f = find(s, c);
    if f < i {
        assert(s[f as int] != c);
    } else if i < f {
        assert(s[i as int] != c);
    }
}

/// The parts of the text between the occurrences of `c`: always one more than
/// there are occurrences.
pub open spec fn split(s: Seq<char>, c: char) -> Seq<Seq<char>>
    decreases s.len(),
{
    let i = find(s, c);
    if i < s.len() {
        seq![s.take(i as int)] + split(s.skip((i + 1) as int), c)
    } else {
        seq![s]
    }
}

/// The text before and after the first `c`.
pub open spec fn cut(s: Seq<char>, c: char) -> Option<(Seq<char>, Seq<char>)> {
    let i = find(s, c);
    if i < s.len() {
        Some((s.take(i as int), s.skip((i + 1) as int)))
    } else {
        None
    }
}

/// The place of the last `c`, or -1 where there is none.
pub open spec fn find_last(s: Seq<char>, c: char) -> int
    decreases s.len(),
{
    if s.len() == 0 {
        -1
    } else if s.last() == c {
        s.len() - 1
    } else {
        find_last(s.drop_last(), c)
    }
}

/// The text before and after the last `c`.
pub open spec fn cut_last(s: Seq<char>, c: char) -> Option<(Seq<char>, Seq<char>)> {
    let i = find_last(s, c);
    if i >= 0 {
        Some((s.take(i), s.skip(i + 1)))
    } else {
        None
    }
}

/// What `find_last` finds.
pub proof fn lemma_find_last(s: Seq<char>, c: char)
    ensures
        -1 <= find_last(s, c) < s.len(),
        forall|j: int| find_last(s, c) < j < s.len() ==> s[j] != c,
        find_last(s, c) >= 0 ==> s[find_last(s, c)] == c,
    decreases s.len(),
{
    if s.len() > 0 && s.last() != c {
        let t = s.drop_last();
        lemma_find_last(t, c);
        assert forall|j: int| find_last(s, c) < j < s.len() implies s[j] != c by {
            if j < s.len() - 1 {
                assert(t[j] == s[j]);
            }
        }
    }
}

/// The text without one trailing carriage return.
pub open spec fn strip_cr(s: Seq<char>) -> Seq<char> {
    if s.len() > 0 && s.last() == '\r' {
        s.drop_last()
    } else {
        s
    }
}

/// The lines of the text. A line ends at `\n` or `\r\n`; the last one may lack
/// its ending.
pub open spec fn lines(s: Seq<char>) -> Seq<Seq<char>>
    decreases s.len(),
{
    let i = find(s, '\n');
    if i < s.len() {
        seq![strip_cr(s.take(i as int))] + lines(s.skip((i + 1) as int))
    } else if s.len() > 0 {
        seq![s]
    } else {
        seq![]
    }
}

/// Where the first `c` at or after `from` stands.
fn find_from(v: &Vec<char>, c: char, from: usize) -> (i: usize)
    requires
        from <= v@.len(),
    ensures
        from <= i <= v@.len(),
        i == from + find(v@.skip(from as int), c),
{
    let mut i: usize = from;
    while i < v.len() && v[i] != c
        invariant
            from <= i <= v@.len(),
            forall|j: int| from <= j < i ==> v@[j] != c,
        decreases v.len() - i,
    {
        i = i + 1;
    }
    proof {
        lemma_find_is(v@.skip(from as int), c, (i - from) as nat);
    }
    i
}

/// The parts of the text between the occurrences of `c`.
pub fn split_char(s: &str, c: char) -> (r: Vec<String>)
    ensures
        views(r@) == split(s@, c),
{
    let v = chars_of(s);
    let mut out: Vec<String> = Vec::new();
    let mut from: usize = 0;
    assert(v@.skip(0) =~= v@);
    assert(views(out@) + split(v@, c) =~= split(v@, c));
    loop
        invariant
            from <= v@.len(),
            v@ == s@,
            views(out@) + split(v@.skip(from as int), c) == split(v@, c),
        decreases v@.len() - from,
    {
        let i = find_from(&v, c, from);
        let part = string_from(&v, from, i);
        let ghost rest = v@.skip(from as int);
        let ghost before = views(out@);
        out.push(part);
        assert(views(out@) =~= before.push(part@));
        if i == v.len() {
            assert(part@ =~= rest);
            assert(views(out@) =~= before + seq![rest]);
            return out;
        }
        assert(part@ =~= rest.take(i - from));
        assert(rest.skip(i - from + 1) =~= v@.skip(i + 1));
        assert(before + (seq![part@] + split(v@.skip(i + 1), c)) =~= before.push(part@) + split(
            v@.skip(i + 1),
            c,
        ));
        from = i + 1;
    }
}

/// The lines of the text.
pub fn split_lines(s: &str) -> (r: Vec<String>)
    ensures
        views(r@) == lines(s@),
{
    let v = chars_of(s);
    let mut out: Vec<String> = Vec::new();
    let mut from: usize = 0;
    assert(v@.skip(0) =~= v@);
    assert(views(out@) + lines(v@) =~= lines(v@));
    loop
        invariant
            from <= v@.len(),
            v@ == s@,
            views(out@) + lines(v@.skip(from as int)) == lines(v@),
        decreases v@.len() - from,
    {
        let i = find_from(&v, '\n', from);
        let ghost rest = v@.skip(from as int);
        let ghost before = views(out@);
        if i == v.len() {
            if from < i {
                let part = string_from(&v, from, i);
                out.push(part);
                assert(part@ =~= rest);
                assert(views(out@) =~= before + seq![rest]);
            } else {
                assert(before + Seq::<Seq<char>>::empty() =~= before);
            }
            return out;
        }
        let hi: usize = if from < i && v[i - 1] == '\r' {
            i - 1
        } else {
            i
        };
        let part = string_from(&v, from, hi);
        out.push(part);
        assert(views(out@) =~= before.push(part@));
        assert(rest.take(i - from) =~= v@.subrange(from as int, i as int));
        assert(part@ =~= strip_cr(rest.take(i - from)));
        assert(rest.skip(i - from + 1) =~= v@.skip(i + 1));
        assert(before + (seq![part@] + lines(v@.skip(i + 1))) =~= before.push(part@) + lines(
            v@.skip(i + 1),
        ));
        from = i + 1;
    }
}

/// The two views of an optional pair of strings.
pub open spec fn pair_view(p: Option<(String, String)>) -> Option<(Seq<char>, Seq<char>)> {
    match p {
        Some((a, b)) => Some((a@, b@)),
        None => None,
    }
}

/// The text before and after the first `c`.
pub fn split_once(s: &str, c: char) -> (r: Option<(String, String)>)
    ensures
        pair_view(r) == cut(s@, c),
{
    let v = chars_of(s);
    let i = find_from(&v, c, 0);
    assert(v@.skip(0) =~= v@);
    if i == v.len() {
        return None;
    }
    let a = string_from(&v, 0, i);
    let b = string_from(&v, i + 1, v.len());
    assert(a@ =~= s@.take(i as int));
    assert(b@ =~= s@.skip(i + 1));
    Some((a, b))
}

/// The text split at no more than the first `n - 1` occurrences of `c`.
pub open spec fn split_n(s: Seq<char>, c: char, n: nat) -> Seq<Seq<char>>
    decreases n,
{
    if n <= 1 {
        seq![s]
    } else {
        match cut(s, c) {
            Some((a, b)) => seq![a] + split_n(b, c, (n - 1) as nat),
            None => seq![s],
        }
    }
}

/// Splits the text into at most `n` parts; the last one is not split further.
pub fn split_up_to(s: &str, c: char, n: usize) -> (r: Vec<String>)
    ensures
        views(r@) == split_n(s@, c, n as nat),
{
    let mut out: Vec<String> = Vec::new();
    let mut rest = String::from_str(s);
    let mut left: usize = n;
    assert(views(out@) + split_n(s@, c, n as nat) =~= split_n(s@, c, n as nat));
    while left > 1
        invariant
            views(out@) + split_n(rest@, c, left as nat) == split_n(s@, c, n as nat),
        decreases left,
    {
        let ghost before = views(out@);
        match split_once(rest.as_str(), c) {
            Some((a, b)) => {
                out.push(a);
                assert(views(out@) =~= before.push(a@));
                assert(before + (seq![a@] + split_n(b@, c, (left - 1) as nat)) =~= before.push(a@)
                    + split_n(b@, c, (left - 1) as nat));
                rest = b;
                left = left - 1;
            },
            None => {
                out.push(rest.clone());
                assert(views(out@) =~= before + seq![rest@]);
                return out;
            },
        }
    }
    let ghost before = views(out@);
    out.push(rest.clone());
    assert(views(out@) =~= before + seq![rest@]);
    out
}

/// The text before and after the last `c`.
pub fn rsplit_once(s: &str, c: char) -> (r: Option<(String, String)>)
    ensures
        pair_view(r) == cut_last(s@, c),
{
    let v = chars_of(s);
    let mut i: usize = v.len();
    assert(v@.take(v@.len() as int) =~= v@);
    while i > 0
        invariant
            i <= v@.len(),
            v@ == s@,
            find_last(s@, c) == find_last(v@.take(i as int), c),
        decreases i,
    {
        assert(v@.take(i as int).last() == v@[i - 1]);
        if v[i - 1] == c {
            let a = string_from(&v, 0, i - 1);
            let b = string_from(&v, i, v.len());
            assert(a@ =~= s@.take(i - 1));
            assert(b@ =~= s@.skip(i as int));
            return Some((a, b));
        }
        assert(v@.take(i as int).drop_last() =~= v@.take(i - 1));
        i = i - 1;
    }
    None
}

/// The parts joined, with `sep` between neighbours.
pub open spec fn join(parts: Seq<Seq<char>>, sep: Seq<char>) -> Seq<char>
    decreases parts.len(),
{
    if parts.len() == 0 {
        seq![]
    } else if parts.len() == 1 {
        parts[0]
    } else {
        join(parts.drop_last(), sep) + sep + parts.last()
    }
}

/// Joins the parts, with `sep` between neighbours.
pub fn join_strings(parts: &Vec<String>, sep: &str) -> (r: String)
    ensures
        r@ == join(views(parts@), sep@),
{
    let mut out = String::new();
    let mut i: usize = 0;
    while i < parts.len()
        invariant
            i <= parts@.len(),
            out@ == join(views(parts@).take(i as int), sep@),
        decreases parts.len() - i,
    {
        if i > 0 {
            out.append(sep);
        }
        out.append(parts[i].as_str());
        i = i + 1;
        let ghost t = views(parts@).take(i as int);
        assert(t.drop_last() =~= views(parts@).take(i - 1));
        assert(t.last() == parts@[i - 1]@);
        if i == 1 {
            assert(out@ =~= t[0]);
        }
    }
    assert(views(parts@).take(i as int) =~= views(parts@));
    out
}

/// The first `n` characters of the text, or all of them where there are fewer.
pub open spec fn clipped(s: Seq<char>, n: int) -> Seq<char> {
    if s.len() <= n {
        s
    } else {
        s.take(n)
    }
}

/// The first `n` characters of the text.
pub fn clip(s: &str, n: usize) -> (r: String)
    ensures
        r@ == clipped(s@, n as int),
{
    let v = chars_of(s);
    let hi: usize = if v.len() <= n {
        v.len()
    } else {
        n
    };
    let r = string_from(&v, 0, hi);
    assert(r@ =~= clipped(s@, n as int));
    r
}

// ---------------------------------------------------------------------------
// Laws of splitting and joining
// ---------------------------------------------------------------------------

/// A text without the separator is its own only part.
pub proof fn lemma_split_plain(s: Seq<char>, c: char)
    requires
        !s.contains(c),
    ensures
        split(s, c) == seq![s],
        cut(s, c) is None,
{
    assert forall|j: int| 0 <= j < s.len() implies s[j] != c by {
        assert(s.contains(s[j]));
    }
    lemma_find_is(s, c, s.len());
}

/// Text up to the first separator is the first part.
pub proof fn lemma_split_head(a: Seq<char>, c: char, b: Seq<char>)
    requires
        !a.contains(c),
    ensures
        split(a + seq![c] + b, c) == seq![a] + split(b, c),
        cut(a + seq![c] + b, c) == Some((a, b)),
{
    let s = a + seq![c] + b;
    assert forall|j: int| 0 <= j < a.len() implies s[j] != c by {
        assert(a.contains(a[j]));
    }
    assert(s[a.len() as int] == c);
    lemma_find_is(s, c, a.len());
    assert(s.take(a.len() as int) =~= a);
    assert(s.skip((a.len() + 1) as int) =~= b);
}

/// No part holds the separator, and there is at least one part.
pub proof fn lemma_split_parts(s: Seq<char>, c: char)
    ensures
        split(s, c).len() > 0,
        forall|i: int| 0 <= i < split(s, c).len() ==> !(#[trigger] split(s, c)[i]).contains(c),
    decreases s.len(),
{
    lemma_find(s, c);
    let i = find(s, c);
    if i < s.len() {
        let rest = s.skip((i + 1) as int);
        lemma_split_parts(rest, c);
        let out = split(s, c);
        assert forall|k: int| 0 <= k < out.len() implies !(#[trigger] out[k]).contains(c) by {
            if k == 0 {
                assert(out[0] == s.take(i as int));
            } else {
                assert(out[k] == split(rest, c)[k - 1]);
            }
        }
    } else {
        assert(!s.contains(c));
    }
}

/// Joining can be read from the front as well.
pub proof fn lemma_join_front(parts: Seq<Seq<char>>, sep: Seq<char>)
    requires
        parts.len() >= 2,
    ensures
        join(parts, sep) == parts[0] + sep + join(parts.drop_first(), sep),
    decreases parts.len(),
{
    let t = parts.drop_first();
    if parts.len() == 2 {
        assert(parts.drop_last() =~= seq![parts[0]]);
        assert(join(parts.drop_last(), sep) == parts[0]);
        assert(join(t, sep) == parts[1]);
    } else {
        lemma_join_front(parts.drop_last(), sep);
        assert(parts.drop_last().drop_first() =~= t.drop_last());
        assert(join(parts, sep) =~= parts[0] + sep + (join(t.drop_last(), sep) + sep
            + parts.last()));
    }
}

/// Splitting undoes joining, where no part holds the separator.
pub proof fn split_undoes_join(parts: Seq<Seq<char>>, c: char)
    requires
        parts.len() > 0,
        forall|i: int| 0 <= i < parts.len() ==> !(#[trigger] parts[i]).contains(c),
    ensures
        split(join(parts, seq![c]), c) == parts,
    decreases parts.len(),
{
    if parts.len() == 1 {
        assert(!parts[0].contains(c));
        lemma_split_plain(parts[0], c);
        assert(parts =~= seq![parts[0]]);
    } else {
        let t = parts.drop_first();
        assert forall|i: int| 0 <= i < t.len() implies !(#[trigger] t[i]).contains(c) by {
            assert(t[i] == parts[i + 1]);
        }
        split_undoes_join(t, c);
        lemma_join_front(parts, seq![c]);
        assert(!parts[0].contains(c));
        lemma_split_head(parts[0], c, join(t, seq![c]));
        assert(seq![parts[0]] + t =~= parts);
    }
}

/// Joining undoes splitting.
pub proof fn join_undoes_split(s: Seq<char>, c: char)
    ensures
        join(split(s, c), seq![c]) == s,
    decreases s.len(),
{
    lemma_find(s, c);
    let i = find(s, c);
    if i < s.len() {
        let rest = s.skip((i + 1) as int);
        join_undoes_split(rest, c);
        lemma_split_parts(rest, c);
        let out = split(s, c);
        assert(out.drop_first() =~= split(rest, c));
        assert(out[0] == s.take(i as int));
        lemma_join_front(out, seq![c]);
        assert(s =~= s.take(i as int) + seq![c] + rest);
    }
}

/// Do all characters satisfy `p`?
pub open spec fn every(s: Seq<char>, p: spec_fn(char) -> bool) -> bool {
    forall|i: int| 0 <= i < s.len() ==> p(#[trigger] s[i])
}

/// What holds of every character of a text holds of every character of its
/// parts.
pub proof fn lemma_split_every(s: Seq<char>, c: char, p: spec_fn(char) -> bool)
    requires
        every(s, p),
    ensures
        forall|i: int| 0 <= i < split(s, c).len() ==> every(#[trigger] split(s, c)[i], p),
    decreases s.len(),
{
    lemma_find(s, c);
    let i = find(s, c);
    if i < s.len() {
        let rest = s.skip((i + 1) as int);
        let head = s.take(i as int);
        assert(every(head, p));
        assert(every(rest, p)) by {
            assert forall|k: int| 0 <= k < rest.len() implies p(#[trigger] rest[k]) by {
                assert(rest[k] == s[k + i + 1]);
            }
        }
        lemma_split_every(rest, c, p);
        let out = split(s, c);
        assert forall|k: int| 0 <= k < out.len() implies every(#[trigger] out[k], p) by {
            if k > 0 {
                assert(out[k] == split(rest, c)[k - 1]);
            }
        }
    }
}

/// What holds of every character of the parts and of the separator holds of
/// every character of the joined text.
pub proof fn lemma_join_every(parts: Seq<Seq<char>>, sep: Seq<char>, p: spec_fn(char) -> bool)
    requires
        every(sep, p),
        forall|i: int| 0 <= i < parts.len() ==> every(#[trigger] parts[i], p),
    ensures
        every(join(parts, sep), p),
    decreases parts.len(),
{
    if parts.len() == 1 {
        assert(every(parts[0], p));
    } else if parts.len() > 1 {
        let t = parts.drop_last();
        assert forall|i: int| 0 <= i < t.len() implies every(#[trigger] t[i], p) by {
            assert(t[i] == parts[i]);
        }
        lemma_join_every(t, sep, p);
        assert(every(parts.last(), p)) by {
            assert(parts[parts.len() - 1] == parts.last());
        }
        let a = join(t, sep);
        let s = join(parts, sep);
        assert forall|k: int| 0 <= k < s.len() implies p(#[trigger] s[k]) by {
            if k < a.len() {
                assert(s[k] == a[k]);
            } else if k < a.len() + sep.len() {
                assert(s[k] == sep[k - a.len()]);
            } else {
                assert(s[k] == parts.last()[k - a.len() - sep.len()]);
            }
        }
    }
}

/// A text with a character that is not white space is not blank.
pub proof fn lemma_not_blank(s: Seq<char>, i: int)
    requires
        0 <= i < s.len(),
        !is_space(s[i]),
    ensures
        !is_blank(s),
{
    lemma_trim_left_keeps(s, i);
    let t = trim_left(s);
    lemma_trim_right_keeps(t, i - (s.len() - t.len()));
}

proof fn lemma_trim_left_keeps(s: Seq<char>, i: int)
    requires
        0 <= i < s.len(),
        !is_space(s[i]),
    ensures
        s.len() - i <= trim_left(s).len() <= s.len(),
        trim_left(s)[i - (s.len() - trim_left(s).len())] == s[i],
    decreases s.len(),
{
    if is_space(s[0]) {
        assert(s.drop_first()[i - 1] == s[i]);
        lemma_trim_left_keeps(s.drop_first(), i - 1);
    }
}

proof fn lemma_trim_right_keeps(s: Seq<char>, i: int)
    requires
        0 <= i < s.len(),
        !is_space(s[i]),
    ensures
        i < trim_right(s).len(),
    decreases s.len(),
{
    if is_space(s.last()) {
        assert(s.drop_last()[i] == s[i]);
        lemma_trim_right_keeps(s.drop_last(), i);
    }
}

// ---------------------------------------------------------------------------
// Laws of trimming, searching and cutting
// ---------------------------------------------------------------------------

/// Skipping leading white space takes white space alone, and all of it.
proof fn lemma_trim_left(s: Seq<char>) -> (lo: int)
    ensures
        0 <= lo <= s.len(),
        trim_left(s) == s.skip(lo),
        forall|j: int| 0 <= j < lo ==> is_space(#[trigger] s[j]),
        lo < s.len() ==> !is_space(s[lo]),
    decreases s.len(),
{
    if s.len() > 0 && is_space(s[0]) {
        let k = lemma_trim_left(s.drop_first());
        assert(s.drop_first().skip(k) =~= s.skip(k + 1));
        assert forall|j: int| 0 <= j < k + 1 implies is_space(#[trigger] s[j]) by {
            if j > 0 {
                assert(s[j] == s.drop_first()[j - 1]);
            }
        }
        k + 1
    } else {
        assert(s.skip(0) =~= s);
        0
    }
}

/// Dropping trailing white space takes white space alone, and all of it.
proof fn lemma_trim_right(s: Seq<char>) -> (hi: int)
    ensures
        0 <= hi <= s.len(),
        trim_right(s) == s.take(hi),
        forall|j: int| hi <= j < s.len() ==> is_space(#[trigger] s[j]),
        hi > 0 ==> !is_space(s[hi - 1]),
    decreases s.len(),
{
    if s.len() > 0 && is_space(s.last()) {
        let k = lemma_trim_right(s.drop_last());
        assert(s.drop_last().take(k) =~= s.take(k));
        assert forall|j: int| k <= j < s.len() implies is_space(#[trigger] s[j]) by {
            if j < s.len() - 1 {
                assert(s[j] == s.drop_last()[j]);
            }
        }
        k
    } else {
        assert(s.take(s.len() as int) =~= s);
        s.len() as int
    }
}

/// Trimming takes white space from both ends, all of it, and nothing else: what
/// is left is one stretch of the text, with white space alone around it.
pub proof fn trimming_takes_white_space_alone(s: Seq<char>) -> (lo: int)
    ensures
        0 <= lo,
        lo + trimmed(s).len() <= s.len(),
        trimmed(s) == s.subrange(lo, lo + trimmed(s).len()),
        forall|j: int| 0 <= j < lo ==> is_space(#[trigger] s[j]),
        forall|j: int| lo + trimmed(s).len() <= j < s.len() ==> is_space(#[trigger] s[j]),
        trimmed(s).len() > 0 ==> !is_space(trimmed(s)[0]) && !is_space(trimmed(s).last()),
{
    let lo = lemma_trim_left(s);
    let t = s.skip(lo);
    let hi = lemma_trim_right(t);
    assert(t.take(hi) =~= s.subrange(lo, lo + hi));
    assert forall|j: int| lo + hi <= j < s.len() implies is_space(#[trigger] s[j]) by {
        assert(s[j] == t[j - lo]);
    }
    if hi > 0 {
        assert(trimmed(s)[0] == t[0] && t[0] == s[lo]);
        assert(trimmed(s).last() == t[hi - 1]);
    }
    lo
}

/// A text without white space at its ends is kept by trimming.
pub proof fn a_tidy_text_is_kept(s: Seq<char>)
    requires
        s.len() > 0 ==> !is_space(s[0]) && !is_space(s.last()),
    ensures
        trimmed(s) == s,
{
}

/// A text is blank where it holds nothing but white space.
pub proof fn blank_is_white_space_alone(s: Seq<char>)
    ensures
        is_blank(s) <==> forall|i: int| 0 <= i < s.len() ==> is_space(#[trigger] s[i]),
{
    let lo = trimming_takes_white_space_alone(s);
    if !is_blank(s) {
        assert(trimmed(s)[0] == s[lo]);
    }
}

/// Among the ASCII characters, white space is the space and the five characters
/// from the tab to the carriage return; the digits, the letters and the
/// hexadecimal digits are the usual ones; and the control characters are those
/// below the space and the one behind the tilde.
pub proof fn the_classes_of_ascii_characters(c: char)
    requires
        c as u32 <= 0x7f,
    ensures
        is_space(c) <==> c == ' ' || c == '\t' || c == '\n' || c as u32 == 0x0b || c as u32 == 0x0c
            || c == '\r',
        is_control(c) <==> (c as u32) < 0x20 || c as u32 == 0x7f,
        is_digit(c) <==> 0x30 <= c as u32 <= 0x39,
        is_alpha(c) <==> 0x41 <= c as u32 <= 0x5a || 0x61 <= c as u32 <= 0x7a,
        is_alnum(c) <==> is_digit(c) || is_alpha(c),
        is_hex(c) <==> is_digit(c) || 0x41 <= c as u32 <= 0x46 || 0x61 <= c as u32 <= 0x66,
{
}

/// Lower case touches the letters from A to Z alone: each becomes the letter
/// thirty-two places on, and everything else stays where and what it is.
pub proof fn lower_case_touches_capitals_alone(s: Seq<char>, i: int)
    requires
        0 <= i < s.len(),
    ensures
        ascii_lower(s).len() == s.len(),
        'A' <= s[i] <= 'Z' ==> ascii_lower(s)[i] as u32 == s[i] as u32 + 32,
        !('A' <= s[i] <= 'Z') ==> ascii_lower(s)[i] == s[i],
        ascii_lower(ascii_lower(s)) == ascii_lower(s),
{
    let t = ascii_lower(s);
    assert forall|k: int| 0 <= k < t.len() implies #[trigger] ascii_lower(t)[k] == t[k] by {
        assert(t[k] == lower_char(s[k]));
    }
    assert(ascii_lower(t) =~= t);
}

/// A text begins with whatever it was put behind, and with nothing else.
pub proof fn begins_with_what_was_put_first(s: Seq<char>, p: Seq<char>, rest: Seq<char>)
    ensures
        begins(p + rest, p),
        begins(s, p) ==> s == p + s.skip(p.len() as int),
{
    assert((p + rest).subrange(0, p.len() as int) =~= p);
    if begins(s, p) {
        assert(s =~= s.subrange(0, p.len() as int) + s.skip(p.len() as int));
    }
}

/// A text holds whatever stands in it, wherever that is, and nothing else.
pub proof fn holds_what_stands_in_it(s: Seq<char>, a: Seq<char>, p: Seq<char>, b: Seq<char>)
    ensures
        holds(a + p + b, p),
        holds(s, p) ==> exists|i: int|
            0 <= i && i + p.len() <= s.len() && s == #[trigger] s.take(i) + p + s.skip(
                i + p.len(),
            ),
{
    let t = a + p + b;
    assert(t.subrange(a.len() as int, (a.len() + p.len()) as int) =~= p);
    assert(holds_at(t, p, a.len() as int));
    if holds(s, p) {
        let i = choose|i: int| #[trigger] holds_at(s, p, i);
        assert(s =~= s.take(i) + s.subrange(i, i + p.len()) + s.skip(i + p.len()));
    }
}

/// The text is cut at its last separator.
pub proof fn the_last_separator_cuts(a: Seq<char>, c: char, b: Seq<char>)
    requires
        !b.contains(c),
    ensures
        cut_last(a + seq![c] + b, c) == Some((a, b)),
        cut_last(b, c) is None,
{
    let s = a + seq![c] + b;
    lemma_find_last(s, c);
    lemma_find_last(b, c);
    let i = find_last(s, c);
    assert(s[a.len() as int] == c);
    if i > a.len() {
        assert(s[i] == b[i - a.len() - 1]);
    }
    assert(s.take(i) =~= a);
    assert(s.skip(i + 1) =~= b);
}

/// Splitting into so many parts cuts at the first separators, and leaves the last
/// part as it is.
pub proof fn the_first_separators_cut(a: Seq<char>, c: char, b: Seq<char>, n: nat)
    requires
        !a.contains(c),
        n >= 2,
    ensures
        split_n(a + seq![c] + b, c, n) == seq![a] + split_n(b, c, (n - 1) as nat),
        split_n(a, c, n) == seq![a],
        split_n(b, c, 1) == seq![b],
{
    lemma_split_head(a, c, b);
    lemma_split_plain(a, c);
}

/// A line ends at a line feed, with or without a carriage return in front of it;
/// what follows is cut the same way, and a last line needs no ending.
pub proof fn a_line_ends_at_its_break(a: Seq<char>, b: Seq<char>)
    requires
        !a.contains('\n'),
    ensures
        a.len() > 0 && a.last() == '\r' || lines(a + seq!['\n'] + b) == seq![a] + lines(b),
        lines(a + seq!['\r', '\n'] + b) == seq![a] + lines(b),
        a.len() > 0 ==> lines(a) == seq![a],
        lines(seq![]) == Seq::<Seq<char>>::empty(),
{
    let s = a + seq!['\n'] + b;
    assert forall|j: int| 0 <= j < a.len() implies s[j] != '\n' by {
        assert(s[j] == a[j]);
        assert(a.contains(a[j]));
    }
    lemma_find_is(s, '\n', a.len());
    assert(s.take(a.len() as int) =~= a);
    assert(s.skip((a.len() + 1) as int) =~= b);
    let t = a + seq!['\r', '\n'] + b;
    let ar = a.push('\r');
    assert forall|j: int| 0 <= j < a.len() + 1 implies t[j] != '\n' by {
        if j < a.len() {
            assert(t[j] == a[j]);
            assert(a.contains(a[j]));
        }
    }
    lemma_find_is(t, '\n', a.len() + 1);
    assert(t.take((a.len() + 1) as int) =~= ar);
    assert(ar.drop_last() =~= a);
    assert(t.skip((a.len() + 2) as int) =~= b);
    assert forall|j: int| 0 <= j < a.len() implies a[j] != '\n' by {
        assert(a.contains(a[j]));
    }
    lemma_find_is(a, '\n', a.len());
}

/// A clipped text is the beginning of the text, as long as there is room for.
pub proof fn clipping_keeps_the_beginning(s: Seq<char>, n: int)
    requires
        n >= 0,
    ensures
        begins(s, clipped(s, n)),
        clipped(s, n).len() == if s.len() <= n {
            s.len() as int
        } else {
            n
        },
{
    assert(s.subrange(0, clipped(s, n).len() as int) =~= clipped(s, n));
}

/// Leaving a text out of a list takes every occurrence of it, and leaves all
/// others in their order.
pub proof fn leaving_out_takes_one_text_alone(a: Seq<Seq<char>>, s: Seq<char>, b: Seq<Seq<char>>)
    ensures
        without(a.push(s) + b, s) == without(a, s) + without(b, s),
        !without(a, s).contains(s),
        !a.contains(s) ==> without(a, s) == a,
    decreases a.len() + b.len(),
{
    if b.len() > 0 {
        leaving_out_takes_one_text_alone(a, s, b.drop_last());
        assert((a.push(s) + b).drop_last() =~= a.push(s) + b.drop_last());
        assert((a.push(s) + b).last() == b.last());
        assert(without(a, s) + without(b.drop_last(), s).push(b.last()) =~= (without(a, s)
            + without(b.drop_last(), s)).push(b.last()));
    } else {
        assert(a.push(s) + b =~= a.push(s));
        assert(a.push(s).drop_last() =~= a);
        assert(without(a, s) + without(b, s) =~= without(a, s));
        if a.len() > 0 {
            let t = a.drop_last();
            leaving_out_takes_one_text_alone(t, s, b);
            let w = without(a, s);
            assert forall|i: int| 0 <= i < w.len() implies w[i] != s by {
                if i < without(t, s).len() {
                    assert(without(t, s).contains(without(t, s)[i]));
                }
            }
            if !a.contains(s) {
                assert forall|i: int| 0 <= i < t.len() implies t[i] != s by {
                    assert(a.contains(a[i]));
                }
                assert(a.contains(a.last()));
                assert(t.push(a.last()) =~= a);
            }
        }
    }
}

/// Taking characters of a set from the end takes those alone, and all of them.
pub proof fn the_end_is_freed_of_a_set(s: Seq<char>, set: Seq<char>) -> (hi: int)
    ensures
        0 <= hi <= s.len(),
        trim_end_of(s, set) == s.take(hi),
        forall|j: int| hi <= j < s.len() ==> set.contains(#[trigger] s[j]),
        hi > 0 ==> !set.contains(s[hi - 1]),
    decreases s.len(),
{
    if s.len() > 0 && set.contains(s.last()) {
        let k = the_end_is_freed_of_a_set(s.drop_last(), set);
        assert(s.drop_last().take(k) =~= s.take(k));
        assert forall|j: int| k <= j < s.len() implies set.contains(#[trigger] s[j]) by {
            if j < s.len() - 1 {
                assert(s[j] == s.drop_last()[j]);
            }
        }
        k
    } else {
        assert(s.take(s.len() as int) =~= s);
        s.len() as int
    }
}

/// Taking characters of a set from the beginning takes those alone, and all of
/// them.
pub proof fn the_beginning_is_freed_of_a_set(s: Seq<char>, set: Seq<char>) -> (lo: int)
    ensures
        0 <= lo <= s.len(),
        trim_start_of(s, set) == s.skip(lo),
        forall|j: int| 0 <= j < lo ==> set.contains(#[trigger] s[j]),
        lo < s.len() ==> !set.contains(s[lo]),
    decreases s.len(),
{
    if s.len() > 0 && set.contains(s[0]) {
        let k = the_beginning_is_freed_of_a_set(s.drop_first(), set);
        assert(s.drop_first().skip(k) =~= s.skip(k + 1));
        assert forall|j: int| 0 <= j < k + 1 implies set.contains(#[trigger] s[j]) by {
            if j > 0 {
                assert(s[j] == s.drop_first()[j - 1]);
            }
        }
        k + 1
    } else {
        assert(s.skip(0) =~= s);
        0
    }
}

} // verus!
