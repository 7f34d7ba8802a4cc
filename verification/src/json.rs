//! JSON values as plain data.
//!
//! Widget settings, upstream documents and cached payloads are all JSON of a
//! shape that is only partly known. An object keeps its members in the order of
//! their keys, each key once.

use vstd::prelude::*;

use crate::numbers::{signed_decimal, to_decimal, to_signed_decimal};
use crate::order::{text_before, text_less, text_order_is_total, text_order_is_transitive};
use crate::text::same;

verus! {

/// A JSON number. A number with a fraction or an exponent is kept as the text
/// that writes it.
#[derive(Debug, Clone)]
pub enum Number {
    PosInt(u64),
    NegInt(i64),
    Float(String),
}

/// The meaning of a [`Number`].
pub enum NumberView {
    PosInt(u64),
    NegInt(i64),
    Float(Seq<char>),
}

/// A JSON value.
#[derive(Debug)]
pub enum Json {
    Null,
    Bool(bool),
    Number(Number),
    Str(String),
    Array(Vec<Json>),
    Object(JsonMap),
}

/// The members of a JSON object.
#[derive(Debug)]
pub struct JsonMap {
    pub entries: Vec<(String, Json)>,
}

/// The meaning of a [`Json`].
pub enum JsonView {
    Null,
    Bool(bool),
    Number(NumberView),
    Str(Seq<char>),
    Array(Seq<JsonView>),
    Object(Seq<(Seq<char>, JsonView)>),
}

/// The meaning of a [`JsonMap`].
pub type Fields = Seq<(Seq<char>, JsonView)>;

impl View for Number {
    type V = NumberView;

    open spec fn view(&self) -> NumberView {
        match self {
            Number::PosInt(n) => NumberView::PosInt(*n),
            Number::NegInt(n) => NumberView::NegInt(*n),
            Number::Float(t) => NumberView::Float(t@),
        }
    }
}

impl Json {
    /// What the value means.
    pub open spec fn model(&self) -> JsonView
        decreases self,
    {
        match self {
            Json::Null => JsonView::Null,
            Json::Bool(b) => JsonView::Bool(*b),
            Json::Number(n) => JsonView::Number(n@),
            Json::Str(s) => JsonView::Str(s@),
            Json::Array(v) => JsonView::Array(
                Seq::new(
                    v@.len(),
                    |i: int|
                        if 0 <= i < v@.len() {
                            v@[i].model()
                        } else {
                            JsonView::Null
                        },
                ),
            ),
            Json::Object(m) => JsonView::Object(
                Seq::new(
                    m.entries@.len(),
                    |i: int|
                        if 0 <= i < m.entries@.len() {
                            (m.entries@[i].0@, m.entries@[i].1.model())
                        } else {
                            (Seq::empty(), JsonView::Null)
                        },
                ),
            ),
        }
    }
}

impl View for Json {
    type V = JsonView;

    open spec fn view(&self) -> JsonView {
        self.model()
    }
}

impl View for JsonMap {
    type V = Fields;

    open spec fn view(&self) -> Fields {
        Seq::new(self.entries@.len(), |i: int| (self.entries@[i].0@, self.entries@[i].1@))
    }
}

/// The views of a list of values.
pub open spec fn json_views(v: Seq<Json>) -> Seq<JsonView> {
    Seq::new(v.len(), |i: int| v[i]@)
}

/// The view of an optional value.
pub open spec fn opt_json(v: Option<&Json>) -> Option<JsonView> {
    match v {
        Some(j) => Some(j@),
        None => None,
    }
}

/// The view of an optional text.
pub open spec fn opt_str(v: Option<&str>) -> Option<Seq<char>> {
    match v {
        Some(s) => Some(s@),
        None => None,
    }
}

// ---------------------------------------------------------------------------
// What the accessors mean
// ---------------------------------------------------------------------------

/// The value of a member, if the object has it.
pub open spec fn field(m: Fields, key: Seq<char>) -> Option<JsonView>
    decreases m.len(),
{
    if m.len() == 0 {
        None
    } else if m[0].0 == key {
        Some(m[0].1)
    } else {
        field(m.drop_first(), key)
    }
}

/// The members with `key` set to `value`: replaced where it stands, or put in
/// at its place in the order of the keys.
pub open spec fn with_field(m: Fields, key: Seq<char>, value: JsonView) -> Fields
    decreases m.len(),
{
    if m.len() == 0 {
        seq![(key, value)]
    } else if m[0].0 == key {
        seq![(key, value)] + m.drop_first()
    } else if text_before(key, m[0].0) {
        seq![(key, value)] + m
    } else {
        seq![m[0]] + with_field(m.drop_first(), key, value)
    }
}

/// Are the keys in ascending order, each once?
pub open spec fn keys_ascend(m: Fields) -> bool {
    forall|i: int, j: int| 0 <= i < j < m.len() ==> text_before(#[trigger] m[i].0, #[trigger] m[j].0)
}

impl JsonView {
    /// The value of a member, where this is an object that has it.
    pub open spec fn get(self, key: Seq<char>) -> Option<JsonView> {
        match self {
            JsonView::Object(m) => field(m, key),
            _ => None,
        }
    }

    /// The element at a place, where this is an array that long.
    pub open spec fn at(self, i: int) -> Option<JsonView> {
        match self {
            JsonView::Array(v) => if 0 <= i < v.len() {
                Some(v[i])
            } else {
                None
            },
            _ => None,
        }
    }

    /// The text, where this is one.
    pub open spec fn as_str(self) -> Option<Seq<char>> {
        match self {
            JsonView::Str(s) => Some(s),
            _ => None,
        }
    }

    /// The truth value, where this is one.
    pub open spec fn as_bool(self) -> Option<bool> {
        match self {
            JsonView::Bool(b) => Some(b),
            _ => None,
        }
    }

    /// The whole number, where this is one that an `i64` holds.
    pub open spec fn as_i64(self) -> Option<i64> {
        match self {
            JsonView::Number(NumberView::PosInt(n)) => if n <= i64::MAX {
                Some(n as i64)
            } else {
                None
            },
            JsonView::Number(NumberView::NegInt(n)) => Some(n),
            _ => None,
        }
    }

    /// The whole number, where this is one that a `u64` holds.
    pub open spec fn as_u64(self) -> Option<u64> {
        match self {
            JsonView::Number(NumberView::PosInt(n)) => Some(n),
            _ => None,
        }
    }

    /// The elements, where this is an array.
    pub open spec fn as_array(self) -> Option<Seq<JsonView>> {
        match self {
            JsonView::Array(v) => Some(v),
            _ => None,
        }
    }

    /// The members, where this is an object.
    pub open spec fn as_object(self) -> Option<Fields> {
        match self {
            JsonView::Object(m) => Some(m),
            _ => None,
        }
    }
}

/// The value of a member of an optional value.
pub open spec fn member(v: Option<JsonView>, key: Seq<char>) -> Option<JsonView> {
    match v {
        Some(j) => j.get(key),
        None => None,
    }
}

/// The first element of an optional value.
pub open spec fn head(v: Option<JsonView>) -> Option<JsonView> {
    match v {
        Some(j) => j.at(0),
        None => None,
    }
}

/// The text of an optional value, or a fallback.
pub open spec fn text_or(v: Option<JsonView>, fallback: Seq<char>) -> Seq<char> {
    match v {
        Some(j) => match j.as_str() {
            Some(s) => s,
            None => fallback,
        },
        None => fallback,
    }
}

/// The value of a member of an optional value.
pub fn member_of<'a>(v: Option<&'a Json>, key: &str) -> (r: Option<&'a Json>)
    ensures
        opt_json(r) == member(opt_json(v), key@),
{
    match v {
        Some(j) => j.get(key),
        None => None,
    }
}

/// The first element of an optional value.
pub fn head_of<'a>(v: Option<&'a Json>) -> (r: Option<&'a Json>)
    ensures
        opt_json(r) == head(opt_json(v)),
{
    match v {
        Some(j) => j.at(0),
        None => None,
    }
}

/// The text of an optional value, or a fallback.
pub fn text_of<'a>(v: Option<&'a Json>, fallback: &'a str) -> (r: &'a str)
    ensures
        r@ == text_or(opt_json(v), fallback@),
{
    match v {
        Some(j) => match j.as_str() {
            Some(s) => s,
            None => fallback,
        },
        None => fallback,
    }
}

/// The whole number `n` as JSON.
pub open spec fn int_view(n: i64) -> JsonView {
    if n < 0 {
        JsonView::Number(NumberView::NegInt(n))
    } else {
        JsonView::Number(NumberView::PosInt(n as u64))
    }
}

/// How a number is written.
pub open spec fn number_text(n: NumberView) -> Seq<char> {
    match n {
        NumberView::PosInt(v) => signed_decimal(v as int),
        NumberView::NegInt(v) => signed_decimal(v as int),
        NumberView::Float(t) => t,
    }
}

// ---------------------------------------------------------------------------
// Laws of objects
// ---------------------------------------------------------------------------

/// After `key` is set, reading it gives the value, and every other member reads
/// as before.
pub proof fn set_then_get(m: Fields, key: Seq<char>, value: JsonView, other: Seq<char>)
    ensures
        field(with_field(m, key, value), key) == Some(value),
        other != key ==> field(with_field(m, key, value), other) == field(m, other),
    decreases m.len(),
{
    let out = with_field(m, key, value);
    if m.len() == 0 {
        assert(out.drop_first() =~= m);
    } else if m[0].0 == key {
        assert(out.drop_first() =~= m.drop_first());
    } else if text_before(key, m[0].0) {
        assert(out.drop_first() =~= m);
    } else {
        set_then_get(m.drop_first(), key, value, other);
        assert(out.drop_first() =~= with_field(m.drop_first(), key, value));
    }
}

/// Reading a member of an object that another was set in: either it is the one
/// that was set, or it reads as before.
pub broadcast proof fn reading_behind_setting(
    m: Fields,
    key: Seq<char>,
    value: JsonView,
    other: Seq<char>,
)
    ensures
        #[trigger] field(with_field(m, key, value), other) == if other == key {
            Some(value)
        } else {
            field(m, other)
        },
{
    set_then_get(m, key, value, other);
}

/// A member is read by its key, wherever it stands, and what is not there is not
/// read.
pub proof fn a_member_is_read_by_its_key(m: Fields, key: Seq<char>)
    requires
        keys_ascend(m),
    ensures
        forall|i: int| 0 <= i < m.len() ==> field(m, (#[trigger] m[i]).0) == Some(m[i].1),
        field(m, key) is None <==> forall|i: int| 0 <= i < m.len() ==> (#[trigger] m[i]).0 != key,
    decreases m.len(),
{
    if m.len() > 0 {
        let t = m.drop_first();
        assert forall|i: int, j: int| 0 <= i < j < t.len() implies text_before(
            #[trigger] t[i].0,
            #[trigger] t[j].0,
        ) by {
            assert(t[i] == m[i + 1] && t[j] == m[j + 1]);
        }
        a_member_is_read_by_its_key(t, key);
        assert forall|i: int| 0 <= i < m.len() implies field(m, (#[trigger] m[i]).0) == Some(
            m[i].1,
        ) by {
            if i > 0 {
                assert(text_before(m[0].0, m[i].0));
                text_order_is_total(m[0].0, m[i].0);
                assert(t[i - 1] == m[i]);
            }
        }
        if forall|i: int| 0 <= i < m.len() ==> (#[trigger] m[i]).0 != key {
            assert forall|i: int| 0 <= i < t.len() implies (#[trigger] t[i]).0 != key by {
                assert(m[i + 1] == t[i]);
            }
        }
        if field(m, key) is None {
            assert forall|i: int| 0 <= i < m.len() implies (#[trigger] m[i]).0 != key by {
                if i > 0 {
                    assert(t[i - 1] == m[i]);
                }
            }
        }
    }
}

/// Whole numbers, texts, truth values and elements read back as they were put in,
/// and as nothing else.
pub proof fn values_read_back(n: i64, c: u64, s: Seq<char>, b: bool, v: Seq<JsonView>, i: int)
    ensures
        int_view(n).as_i64() == Some(n),
        int_view(n).as_u64() == if n >= 0 {
            Some(n as u64)
        } else {
            None
        },
        JsonView::Number(NumberView::PosInt(c)).as_u64() == Some(c),
        JsonView::Str(s).as_str() == Some(s),
        JsonView::Str(s).as_i64() is None,
        JsonView::Bool(b).as_bool() == Some(b),
        JsonView::Array(v).as_array() == Some(v),
        0 <= i < v.len() ==> JsonView::Array(v).at(i) == Some(v[i]),
        v.len() > 0 ==> head(Some(JsonView::Array(v))) == Some(v[0]),
        text_or(Some(JsonView::Str(s)), seq![]) == s,
        text_or(None, s) == s,
        text_or(Some(JsonView::Bool(b)), s) == s,
        number_text(NumberView::PosInt(c)) == crate::numbers::decimal(c as nat),
        number_text(NumberView::NegInt(n)) == signed_decimal(n as int),
        number_text(NumberView::Float(s)) == s,
{
}

/// Setting a member keeps the keys in ascending order.
pub proof fn set_keeps_keys_ascending(m: Fields, key: Seq<char>, value: JsonView)
    requires
        keys_ascend(m),
    ensures
        keys_ascend(with_field(m, key, value)),
        with_field(m, key, value).len() == if field(m, key) is Some {
            m.len()
        } else {
            m.len() + 1
        },
    decreases m.len(),
{
    let out = with_field(m, key, value);
    if m.len() > 0 {
        let t = m.drop_first();
        assert(keys_ascend(t)) by {
            assert forall|i: int, j: int| 0 <= i < j < t.len() implies text_before(
                #[trigger] t[i].0,
                #[trigger] t[j].0,
            ) by {
                assert(t[i] == m[i + 1] && t[j] == m[j + 1]);
            }
        }
        if m[0].0 == key {
            assert(out =~= seq![(key, value)] + t);
            assert forall|i: int, j: int| 0 <= i < j < out.len() implies text_before(
                #[trigger] out[i].0,
                #[trigger] out[j].0,
            ) by {
                assert(out[i].0 == m[i].0 && out[j].0 == m[j].0);
            }
        } else if text_before(key, m[0].0) {
            assert forall|i: int| 0 <= i < m.len() implies text_before(key, #[trigger] m[i].0) by {
                if i > 0 {
                    assert(text_before(m[0].0, m[i].0));
                    text_order_is_transitive(key, m[0].0, m[i].0);
                }
            }
            lemma_absent(m, key);
            assert forall|i: int, j: int| 0 <= i < j < out.len() implies text_before(
                #[trigger] out[i].0,
                #[trigger] out[j].0,
            ) by {
                assert(out[j] == m[j - 1]);
                if i > 0 {
                    assert(out[i] == m[i - 1]);
                }
            }
        } else {
            set_keeps_keys_ascending(t, key, value);
            let rest = with_field(t, key, value);
            text_order_is_total(m[0].0, key);
            assert forall|j: int| 0 <= j < rest.len() implies text_before(
                m[0].0,
                #[trigger] rest[j].0,
            ) by {
                lemma_with_field_keys(t, key, value, j);
                if rest[j].0 != key {
                    let k = choose|k: int| 0 <= k < t.len() && #[trigger] t[k].0 == rest[j].0;
                    assert(m[k + 1] == t[k]);
                    assert(text_before(m[0].0, m[k + 1].0));
                }
            }
            assert forall|i: int, j: int| 0 <= i < j < out.len() implies text_before(
                #[trigger] out[i].0,
                #[trigger] out[j].0,
            ) by {
                assert(out[j] == rest[j - 1]);
                if i > 0 {
                    assert(out[i] == rest[i - 1]);
                }
            }
        }
    }
}

/// A key that comes before every key of the object is not in it.
proof fn lemma_absent(m: Fields, key: Seq<char>)
    requires
        forall|i: int| 0 <= i < m.len() ==> text_before(key, #[trigger] m[i].0),
    ensures
        field(m, key) is None,
    decreases m.len(),
{
    if m.len() > 0 {
        text_order_is_total(key, m[0].0);
        let t = m.drop_first();
        assert forall|i: int| 0 <= i < t.len() implies text_before(key, #[trigger] t[i].0) by {
            assert(t[i] == m[i + 1]);
        }
        lemma_absent(t, key);
    }
}

/// Every key of an object with one member set is that member's or was there.
proof fn lemma_with_field_keys(m: Fields, key: Seq<char>, value: JsonView, j: int)
    requires
        0 <= j < with_field(m, key, value).len(),
    ensures
        with_field(m, key, value)[j].0 == key || exists|k: int|
            0 <= k < m.len() && #[trigger] m[k].0 == with_field(m, key, value)[j].0,
    decreases m.len(),
{
    let out = with_field(m, key, value);
    if m.len() == 0 {
    } else if m[0].0 == key {
        if j > 0 {
            assert(m[j].0 == out[j].0);
        }
    } else if text_before(key, m[0].0) {
        if j > 0 {
            assert(m[j - 1].0 == out[j].0);
        }
    } else if j == 0 {
        assert(m[0].0 == out[0].0);
    } else {
        let t = m.drop_first();
        lemma_with_field_keys(t, key, value, j - 1);
        assert(out[j] == with_field(t, key, value)[j - 1]);
        if out[j].0 != key {
            let k = choose|k: int| 0 <= k < t.len() && #[trigger] t[k].0 == out[j].0;
            assert(m[k + 1].0 == out[j].0);
        }
    }
}

// ---------------------------------------------------------------------------
// Numbers
// ---------------------------------------------------------------------------

impl Number {
    /// A copy.
    pub fn dup(&self) -> (r: Number)
        ensures
            r@ == self@,
    {
        match self {
            Number::PosInt(n) => Number::PosInt(*n),
            Number::NegInt(n) => Number::NegInt(*n),
            Number::Float(t) => Number::Float(t.clone()),
        }
    }

    /// How the number is written.
    pub fn text(&self) -> (r: String)
        ensures
            r@ == number_text(self@),
    {
        match self {
            Number::PosInt(n) => to_decimal(*n as u128),
            Number::NegInt(n) => to_signed_decimal(*n),
            Number::Float(t) => t.clone(),
        }
    }
}

// ---------------------------------------------------------------------------
// Objects
// ---------------------------------------------------------------------------

impl JsonMap {
    /// Are the members in the order of their keys, each key once? An object that
    /// is built from an empty one always has them so.
    pub open spec fn wf(self) -> bool {
        keys_ascend(self@)
    }

    /// An object without members.
    pub fn new() -> (r: JsonMap)
        ensures
            r@ == Fields::empty(),
            r.wf(),
    {
        let r = JsonMap { entries: Vec::new() };
        assert(r@ =~= Fields::empty());
        r
    }

    /// How many members there are.
    pub fn len(&self) -> (r: usize)
        ensures
            r == self@.len(),
    {
        self.entries.len()
    }

    /// The value of a member.
    pub fn get(&self, key: &str) -> (r: Option<&Json>)
        ensures
            opt_json(r) == field(self@, key@),
    {
        let mut i: usize = 0;
        assert(self@.skip(0) =~= self@);
        while i < self.entries.len()
            invariant
                i <= self.entries@.len(),
                field(self@, key@) == field(self@.skip(i as int), key@),
            decreases self.entries.len() - i,
        {
            assert(self@.skip(i as int)[0] == self@[i as int]);
            if same(self.entries[i].0.as_str(), key) {
                return Some(&self.entries[i].1);
            }
            assert(self@.skip(i as int).drop_first() =~= self@.skip(i + 1));
            i = i + 1;
        }
        None
    }

    /// Does the object have this member?
    pub fn contains_key(&self, key: &str) -> (r: bool)
        ensures
            r == (field(self@, key@) is Some),
    {
        self.get(key).is_some()
    }

    /// Sets a member.
    pub fn insert(&mut self, key: &str, value: Json)
        ensures
            final(self)@ == with_field(old(self)@, key@, value@),
            old(self).wf() ==> final(self).wf(),
    {
        let ghost m = self@;
        let ghost v = value@;
        proof {
            if keys_ascend(m) {
                set_keeps_keys_ascending(m, key@, v);
            }
        }
        let mut i: usize = 0;
        assert(m.skip(0) =~= m);
        assert(m.take(0) + with_field(m, key@, v) =~= with_field(m, key@, v));
        while i < self.entries.len()
            invariant
                i <= self.entries@.len(),
                m == self@,
                m == old(self)@,
                v == value@,
                keys_ascend(m) ==> keys_ascend(with_field(m, key@, v)),
                with_field(m, key@, v) == m.take(i as int) + with_field(m.skip(i as int), key@, v),
            decreases self.entries.len() - i,
        {
            let ghost rest = m.skip(i as int);
            assert(rest[0] == m[i as int]);
            let here = same(self.entries[i].0.as_str(), key);
            if here || text_less(key, self.entries[i].0.as_str()) {
                if here {
                    let _ = self.entries.remove(i);
                }
                self.entries.insert(i, (String::from_str(key), value));
                assert(self@ =~= m.take(i as int) + with_field(rest, key@, v));
                return;
            }
            assert(rest.drop_first() =~= m.skip(i + 1));
            assert(m.take(i as int) + (seq![m[i as int]] + with_field(m.skip(i + 1), key@, v))
                =~= m.take(i + 1) + with_field(m.skip(i + 1), key@, v));
            i = i + 1;
        }
        self.entries.push((String::from_str(key), value));
        assert(self@ =~= m.take(i as int) + seq![(key@, v)]);
    }

    /// A copy.
    pub fn dup(&self) -> (r: JsonMap)
        ensures
            r@ == self@,
            r.wf() == self.wf(),
        decreases self,
    {
        let v = &self.entries;
        let mut out: Vec<(String, Json)> = Vec::new();
        let mut i: usize = 0;
        while i < v.len()
            invariant
                i <= v.len(),
                out.len() == i,
                v == self.entries,
                decreases_to!(self => v),
                forall|j: int|
                    0 <= j < i ==> (#[trigger] out@[j]).0@ == v@[j].0@ && out@[j].1@ == v@[j].1@,
            decreases v.len() - i,
        {
            out.push((v[i].0.clone(), v[i].1.dup()));
            i = i + 1;
        }
        let r = JsonMap { entries: out };
        assert forall|j: int| 0 <= j < v@.len() implies r@[j] == self@[j] by {
            assert(r.entries@[j].0@ == v@[j].0@);
        }
        assert(r@ =~= self@);
        r
    }
}

// ---------------------------------------------------------------------------
// Values
// ---------------------------------------------------------------------------

/// An object's view is made of its members' views.
pub proof fn lemma_object_view(m: JsonMap)
    ensures
        Json::Object(m)@ == JsonView::Object(m@),
{
    let j = Json::Object(m);
    assert forall|i: int| 0 <= i < m@.len() implies j@->Object_0[i] == m@[i] by {}
    assert(j@->Object_0 =~= m@);
}

/// An array's view is made of its elements' views.
pub proof fn lemma_array_view(v: Vec<Json>)
    ensures
        Json::Array(v)@ == JsonView::Array(json_views(v@)),
{
    let j = Json::Array(v);
    assert forall|i: int| 0 <= i < v@.len() implies j@->Array_0[i] == v@[i]@ by {}
    assert(j@->Array_0 =~= json_views(v@));
}

impl Json {
    /// A text.
    pub fn text(s: &str) -> (r: Json)
        ensures
            r@ == JsonView::Str(s@),
    {
        Json::Str(String::from_str(s))
    }

    /// A whole number.
    pub fn whole(n: i64) -> (r: Json)
        ensures
            r@ == int_view(n),
    {
        if n < 0 {
            Json::Number(Number::NegInt(n))
        } else {
            Json::Number(Number::PosInt(n as u64))
        }
    }

    /// A whole number that is not negative.
    pub fn count(n: u64) -> (r: Json)
        ensures
            r@ == JsonView::Number(NumberView::PosInt(n)),
    {
        Json::Number(Number::PosInt(n))
    }

    /// An array.
    pub fn array(v: Vec<Json>) -> (r: Json)
        ensures
            r@ == JsonView::Array(json_views(v@)),
    {
        proof {
            lemma_array_view(v);
        }
        Json::Array(v)
    }

    /// An object.
    pub fn object(m: JsonMap) -> (r: Json)
        ensures
            r@ == JsonView::Object(m@),
    {
        proof {
            lemma_object_view(m);
        }
        Json::Object(m)
    }

    /// The value of a member, where this is an object that has it.
    pub fn get(&self, key: &str) -> (r: Option<&Json>)
        ensures
            opt_json(r) == self@.get(key@),
    {
        match self {
            Json::Object(m) => {
                proof {
                    lemma_object_view(*m);
                }
                m.get(key)
            },
            _ => None,
        }
    }

    /// The element at a place, where this is an array that long.
    pub fn at(&self, i: usize) -> (r: Option<&Json>)
        ensures
            opt_json(r) == self@.at(i as int),
    {
        match self {
            Json::Array(v) => {
                proof {
                    lemma_array_view(*v);
                }
                if i < v.len() {
                    Some(&v[i])
                } else {
                    None
                }
            },
            _ => None,
        }
    }

    /// The text, where this is one.
    pub fn as_str(&self) -> (r: Option<&str>)
        ensures
            opt_str(r) == self@.as_str(),
    {
        match self {
            Json::Str(s) => Some(s.as_str()),
            _ => None,
        }
    }

    /// The truth value, where this is one.
    pub fn as_bool(&self) -> (r: Option<bool>)
        ensures
            r == self@.as_bool(),
    {
        match self {
            Json::Bool(b) => Some(*b),
            _ => None,
        }
    }

    /// The whole number, where this is one that an `i64` holds.
    pub fn as_i64(&self) -> (r: Option<i64>)
        ensures
            r == self@.as_i64(),
    {
        match self {
            Json::Number(Number::PosInt(n)) => if *n <= 0x7fff_ffff_ffff_ffff {
                Some(*n as i64)
            } else {
                None
            },
            Json::Number(Number::NegInt(n)) => Some(*n),
            _ => None,
        }
    }

    /// The whole number, where this is one that a `u64` holds.
    pub fn as_u64(&self) -> (r: Option<u64>)
        ensures
            r == self@.as_u64(),
    {
        match self {
            Json::Number(Number::PosInt(n)) => Some(*n),
            _ => None,
        }
    }

    /// The elements, where this is an array.
    pub fn as_array(&self) -> (r: Option<&Vec<Json>>)
        ensures
            match r {
                Some(v) => self@ == JsonView::Array(json_views(v@)),
                None => self@.as_array() is None,
            },
    {
        match self {
            Json::Array(v) => {
                proof {
                    lemma_array_view(*v);
                }
                Some(v)
            },
            _ => None,
        }
    }

    /// The members, where this is an object.
    pub fn as_object(&self) -> (r: Option<&JsonMap>)
        ensures
            match r {
                Some(m) => self@ == JsonView::Object(m@),
                None => self@.as_object() is None,
            },
    {
        match self {
            Json::Object(m) => {
                proof {
                    lemma_object_view(*m);
                }
                Some(m)
            },
            _ => None,
        }
    }

    /// A copy.
    pub fn dup(&self) -> (r: Json)
        ensures
            r@ == self@,
        decreases self,
    {
        match self {
            Json::Null => Json::Null,
            Json::Bool(b) => Json::Bool(*b),
            Json::Number(n) => Json::Number(n.dup()),
            Json::Str(s) => Json::Str(s.clone()),
            Json::Array(v) => {
                let mut out: Vec<Json> = Vec::new();
                let mut i: usize = 0;
                while i < v.len()
                    invariant
                        i <= v.len(),
                        out.len() == i,
                        decreases_to!(self => v),
                        forall|j: int| 0 <= j < i ==> (#[trigger] out@[j])@ == v@[j]@,
                    decreases v.len() - i,
                {
                    out.push(v[i].dup());
                    i = i + 1;
                }
                proof {
                    assert(json_views(out@) =~= json_views(v@));
                    lemma_array_view(out);
                    lemma_array_view(*v);
                }
                Json::Array(out)
            },
            Json::Object(m) => {
                let r = m.dup();
                proof {
                    lemma_object_view(r);
                    lemma_object_view(*m);
                }
                Json::Object(r)
            },
        }
    }
}

} // verus!
