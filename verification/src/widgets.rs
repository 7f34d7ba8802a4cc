//! The widget registry: the kinds of widget, their settings, and how incoming
//! settings are brought into the declared shape.

use vstd::prelude::*;

use crate::json::{
    field, int_view, keys_ascend, opt_json, opt_str, set_keeps_keys_ascending, set_then_get,
    with_field, Fields, Json, JsonMap, JsonView, Number, NumberView,
};
use crate::numbers::{
    byte_clipped, byte_clipped_is_the_longest_fit, byte_len, clip_bytes, parse_i64, parse_signed,
    signed_decimal, signed_decimal_reads_back,
};
use crate::text::{a_tidy_text_is_kept, is_digit, same, trim, trimmed};

verus! {

/// How many bytes a stored text setting may take.
pub const MAX_TEXT: usize = 2000;

/// The kinds of widget that a user can add.
#[derive(Debug, Clone, Copy, PartialEq, Eq, Hash, Structural)]
pub enum WidgetKind {
    Weather,
    Clock,
    Rss,
    Overview,
    Containers,
    Links,
}

/// How a setting is edited and brought into shape.
#[derive(Debug, Clone, Copy, PartialEq, Eq, Structural)]
pub enum FieldKind {
    Text,
    Number,
    Checkbox,
    Select,
    Textarea,
}

/// A setting of a widget kind.
#[derive(Debug)]
pub struct Field {
    pub key: &'static str,
    pub label: &'static str,
    pub kind: FieldKind,
    pub default: Json,
    pub hint: Option<&'static str>,
    pub min: Option<i64>,
    pub max: Option<i64>,
    /// The values to choose from, each with its label.
    pub options: Vec<(&'static str, &'static str)>,
}

/// What the registry says of a widget kind.
#[derive(Debug)]
pub struct WidgetType {
    pub kind: WidgetKind,
    pub label: &'static str,
    pub title: &'static str,
    pub icon: &'static str,
    pub fields: Vec<Field>,
}

/// A widget on the dashboard.
#[derive(Debug)]
pub struct Widget {
    pub id: String,
    pub kind: WidgetKind,
    pub title: String,
    pub icon: String,
    pub settings: JsonMap,
}

/// The meaning of a [`Field`].
pub struct FieldView {
    pub key: Seq<char>,
    pub label: Seq<char>,
    pub kind: FieldKind,
    pub default: JsonView,
    pub hint: Option<Seq<char>>,
    pub min: Option<i64>,
    pub max: Option<i64>,
    pub options: Seq<(Seq<char>, Seq<char>)>,
}

/// The meaning of a [`WidgetType`].
pub struct TypeView {
    pub kind: WidgetKind,
    pub label: Seq<char>,
    pub title: Seq<char>,
    pub icon: Seq<char>,
    pub fields: Seq<FieldView>,
}

/// The texts of a list of options.
pub open spec fn option_views(v: Seq<(&'static str, &'static str)>) -> Seq<(Seq<char>, Seq<char>)> {
    Seq::new(v.len(), |i: int| (v[i].0@, v[i].1@))
}

/// The views of a list of fields.
pub open spec fn field_views(v: Seq<Field>) -> Seq<FieldView> {
    Seq::new(v.len(), |i: int| v[i]@)
}

impl View for Field {
    type V = FieldView;

    open spec fn view(&self) -> FieldView {
        FieldView {
            key: self.key@,
            label: self.label@,
            kind: self.kind,
            default: self.default@,
            hint: opt_str(self.hint),
            min: self.min,
            max: self.max,
            options: option_views(self.options@),
        }
    }
}

impl View for WidgetType {
    type V = TypeView;

    open spec fn view(&self) -> TypeView {
        TypeView {
            kind: self.kind,
            label: self.label@,
            title: self.title@,
            icon: self.icon@,
            fields: field_views(self.fields@),
        }
    }
}

// ---------------------------------------------------------------------------
// The registry
// ---------------------------------------------------------------------------

/// A field without hint, range or options.
pub open spec fn plain(
    key: Seq<char>,
    label: Seq<char>,
    kind: FieldKind,
    default: JsonView,
) -> FieldView {
    FieldView { key, label, kind, default, hint: None, min: None, max: None, options: seq![] }
}

/// A checkbox.
pub open spec fn checkbox(key: Seq<char>, label: Seq<char>, on: bool) -> FieldView {
    plain(key, label, FieldKind::Checkbox, JsonView::Bool(on))
}

/// A number between two bounds.
pub open spec fn number(key: Seq<char>, label: Seq<char>, n: i64, lo: i64, hi: i64) -> FieldView {
    FieldView {
        min: Some(lo),
        max: Some(hi),
        ..plain(key, label, FieldKind::Number, int_view(n))
    }
}

/// A choice between two values.
pub open spec fn choice(
    key: Seq<char>,
    label: Seq<char>,
    default: Seq<char>,
    a: (Seq<char>, Seq<char>),
    b: (Seq<char>, Seq<char>),
) -> FieldView {
    FieldView {
        options: seq![a, b],
        ..plain(key, label, FieldKind::Select, JsonView::Str(default))
    }
}

/// A text with a hint.
pub open spec fn hinted(
    key: Seq<char>,
    label: Seq<char>,
    kind: FieldKind,
    default: Seq<char>,
    hint: Seq<char>,
) -> FieldView {
    FieldView { hint: Some(hint), ..plain(key, label, kind, JsonView::Str(default)) }
}

/// The settings of a widget kind.
pub open spec fn fields_of(kind: WidgetKind) -> Seq<FieldView> {
    match kind {
        WidgetKind::Weather => seq![
            hinted(
                "location"@,
                "Location"@,
                FieldKind::Text,
                "Berlin"@,
                "City name, or lat,lon"@,
            ),
            choice("units"@, "Units"@, "c"@, ("c"@, "Celsius"@), ("f"@, "Fahrenheit"@)),
            number("days"@, "Forecast days"@, 3, 0, 5),
        ],
        WidgetKind::Clock => seq![
            plain("label"@, "Label"@, FieldKind::Text, JsonView::Str(""@)),
            choice("format"@, "Format"@, "24"@, ("24"@, "24-hour"@), ("12"@, "12-hour"@)),
            checkbox("seconds"@, "Show seconds"@, false),
            checkbox("date"@, "Show date"@, true),
        ],
        WidgetKind::Rss => seq![
            hinted(
                "feeds"@,
                "Feed URLs"@,
                FieldKind::Textarea,
                "https://news.ycombinator.com/rss"@,
                "One URL per line"@,
            ),
            number("limit"@, "Items"@, 8, 1, 30),
            checkbox("thumbs"@, "Show thumbnails"@, true),
        ],
        WidgetKind::Overview => seq![
            checkbox("show_cpu"@, "Show average CPU"@, true),
            checkbox("show_ram"@, "Show memory"@, true),
            checkbox("show_containers"@, "Show container counts"@, true),
        ],
        WidgetKind::Containers => seq![
            number("limit"@, "Max shown"@, 10, 1, 50),
            checkbox("running_only"@, "Running only"@, false),
        ],
        WidgetKind::Links => seq![
            hinted(
                "items"@,
                "Links"@,
                FieldKind::Textarea,
                "MinDash|https://example.com"@,
                "One per line, as Name|URL"@,
            ),
        ],
    }
}

/// What the registry says of a widget kind.
pub open spec fn type_of(kind: WidgetKind) -> TypeView {
    let fields = fields_of(kind);
    match kind {
        WidgetKind::Weather => TypeView {
            kind,
            label: "Weather"@,
            title: "Weather"@,
            icon: "cloud-sun"@,
            fields,
        },
        WidgetKind::Clock => TypeView {
            kind,
            label: "Clock"@,
            title: "Clock"@,
            icon: "clock"@,
            fields,
        },
        WidgetKind::Rss => TypeView {
            kind,
            label: "News (RSS/Atom)"@,
            title: "News"@,
            icon: "rss"@,
            fields,
        },
        WidgetKind::Overview => TypeView {
            kind,
            label: "System overview"@,
            title: "Overview"@,
            icon: "activity"@,
            fields,
        },
        WidgetKind::Containers => TypeView {
            kind,
            label: "Containers"@,
            title: "Containers"@,
            icon: "box"@,
            fields,
        },
        WidgetKind::Links => TypeView {
            kind,
            label: "Links"@,
            title: "Links"@,
            icon: "link"@,
            fields,
        },
    }
}

impl Field {
    /// A field without hint, range or options.
    fn plain(key: &'static str, label: &'static str, kind: FieldKind, default: Json) -> (r: Field)
        ensures
            r@ == plain(key@, label@, kind, default@),
    {
        let r = Field {
            key,
            label,
            kind,
            default,
            hint: None,
            min: None,
            max: None,
            options: Vec::new(),
        };
        assert(r@.options =~= seq![]);
        r
    }

    /// A checkbox.
    fn checkbox(key: &'static str, label: &'static str, on: bool) -> (r: Field)
        ensures
            r@ == checkbox(key@, label@, on),
    {
        Field::plain(key, label, FieldKind::Checkbox, Json::Bool(on))
    }

    /// A number between two bounds.
    fn number(key: &'static str, label: &'static str, n: i64, lo: i64, hi: i64) -> (r: Field)
        ensures
            r@ == number(key@, label@, n, lo, hi),
    {
        let mut r = Field::plain(key, label, FieldKind::Number, Json::whole(n));
        r.min = Some(lo);
        r.max = Some(hi);
        r
    }

    /// A choice between two values.
    fn choice(
        key: &'static str,
        label: &'static str,
        default: &'static str,
        a: (&'static str, &'static str),
        b: (&'static str, &'static str),
    ) -> (r: Field)
        ensures
            r@ == choice(key@, label@, default@, (a.0@, a.1@), (b.0@, b.1@)),
    {
        let mut r = Field::plain(key, label, FieldKind::Select, Json::text(default));
        assert(r@.options.len() == 0);
        r.options.push(a);
        r.options.push(b);
        assert(r@.options =~= seq![(a.0@, a.1@), (b.0@, b.1@)]);
        r
    }

    /// A text with a hint.
    fn hinted(
        key: &'static str,
        label: &'static str,
        kind: FieldKind,
        default: &'static str,
        hint: &'static str,
    ) -> (r: Field)
        ensures
            r@ == hinted(key@, label@, kind, default@, hint@),
    {
        let mut r = Field::plain(key, label, kind, Json::text(default));
        r.hint = Some(hint);
        r
    }
}

impl WidgetKind {
    /// All kinds.
    pub const ALL: [WidgetKind; 6] = [
        WidgetKind::Weather,
        WidgetKind::Clock,
        WidgetKind::Rss,
        WidgetKind::Overview,
        WidgetKind::Containers,
        WidgetKind::Links,
    ];

    /// The name of the kind.
    pub open spec fn name(self) -> Seq<char> {
        match self {
            WidgetKind::Weather => "weather"@,
            WidgetKind::Clock => "clock"@,
            WidgetKind::Rss => "rss"@,
            WidgetKind::Overview => "overview"@,
            WidgetKind::Containers => "containers"@,
            WidgetKind::Links => "links"@,
        }
    }

    /// The name of the kind.
    pub fn as_str(self) -> (r: &'static str)
        ensures
            r@ == self.name(),
    {
        match self {
            WidgetKind::Weather => "weather",
            WidgetKind::Clock => "clock",
            WidgetKind::Rss => "rss",
            WidgetKind::Overview => "overview",
            WidgetKind::Containers => "containers",
            WidgetKind::Links => "links",
        }
    }

    /// The kind of that name. There are no others.
    pub fn from_name(name: &str) -> (r: Option<WidgetKind>)
        ensures
            match r {
                Some(k) => name@ == k.name(),
                None => forall|k: WidgetKind| name@ != #[trigger] k.name(),
            },
    {
        if same(name, "weather") {
            Some(WidgetKind::Weather)
        } else if same(name, "clock") {
            Some(WidgetKind::Clock)
        } else if same(name, "rss") {
            Some(WidgetKind::Rss)
        } else if same(name, "overview") {
            Some(WidgetKind::Overview)
        } else if same(name, "containers") {
            Some(WidgetKind::Containers)
        } else if same(name, "links") {
            Some(WidgetKind::Links)
        } else {
            None
        }
    }

    /// The settings of the kind.
    fn fields(self) -> (r: Vec<Field>)
        ensures
            field_views(r@) == fields_of(self),
    {
        let mut v: Vec<Field> = Vec::new();
        match self {
            WidgetKind::Weather => {
                v.push(
                    Field::hinted(
                        "location",
                        "Location",
                        FieldKind::Text,
                        "Berlin",
                        "City name, or lat,lon",
                    ),
                );
                v.push(
                    Field::choice("units", "Units", "c", ("c", "Celsius"), ("f", "Fahrenheit")),
                );
                v.push(Field::number("days", "Forecast days", 3, 0, 5));
            },
            WidgetKind::Clock => {
                v.push(Field::plain("label", "Label", FieldKind::Text, Json::text("")));
                v.push(
                    Field::choice("format", "Format", "24", ("24", "24-hour"), ("12", "12-hour")),
                );
                v.push(Field::checkbox("seconds", "Show seconds", false));
                v.push(Field::checkbox("date", "Show date", true));
            },
            WidgetKind::Rss => {
                v.push(
                    Field::hinted(
                        "feeds",
                        "Feed URLs",
                        FieldKind::Textarea,
                        "https://news.ycombinator.com/rss",
                        "One URL per line",
                    ),
                );
                v.push(Field::number("limit", "Items", 8, 1, 30));
                v.push(Field::checkbox("thumbs", "Show thumbnails", true));
            },
            WidgetKind::Overview => {
                v.push(Field::checkbox("show_cpu", "Show average CPU", true));
                v.push(Field::checkbox("show_ram", "Show memory", true));
                v.push(Field::checkbox("show_containers", "Show container counts", true));
            },
            WidgetKind::Containers => {
                v.push(Field::number("limit", "Max shown", 10, 1, 50));
                v.push(Field::checkbox("running_only", "Running only", false));
            },
            WidgetKind::Links => {
                v.push(
                    Field::hinted(
                        "items",
                        "Links",
                        FieldKind::Textarea,
                        "MinDash|https://example.com",
                        "One per line, as Name|URL",
                    ),
                );
            },
        }
        assert(field_views(v@) =~= fields_of(self));
        v
    }

    /// What the registry says of the kind.
    pub fn spec(self) -> (r: WidgetType)
        ensures
            r@ == type_of(self),
    {
        let fields = self.fields();
        match self {
            WidgetKind::Weather => WidgetType {
                kind: self,
                label: "Weather",
                title: "Weather",
                icon: "cloud-sun",
                fields,
            },
            WidgetKind::Clock => WidgetType {
                kind: self,
                label: "Clock",
                title: "Clock",
                icon: "clock",
                fields,
            },
            WidgetKind::Rss => WidgetType {
                kind: self,
                label: "News (RSS/Atom)",
                title: "News",
                icon: "rss",
                fields,
            },
            WidgetKind::Overview => WidgetType {
                kind: self,
                label: "System overview",
                title: "Overview",
                icon: "activity",
                fields,
            },
            WidgetKind::Containers => WidgetType {
                kind: self,
                label: "Containers",
                title: "Containers",
                icon: "box",
                fields,
            },
            WidgetKind::Links => WidgetType {
                kind: self,
                label: "Links",
                title: "Links",
                icon: "link",
                fields,
            },
        }
    }
}

/// The views of a list of types.
pub open spec fn type_views(v: Seq<WidgetType>) -> Seq<TypeView> {
    Seq::new(v.len(), |i: int| v[i]@)
}

/// The whole registry, in the order of [`WidgetKind::ALL`].
pub open spec fn registry() -> Seq<TypeView> {
    seq![
        type_of(WidgetKind::Weather),
        type_of(WidgetKind::Clock),
        type_of(WidgetKind::Rss),
        type_of(WidgetKind::Overview),
        type_of(WidgetKind::Containers),
        type_of(WidgetKind::Links),
    ]
}

/// The whole registry.
pub fn all_types() -> (r: Vec<WidgetType>)
    ensures
        type_views(r@) == registry(),
{
    let mut v: Vec<WidgetType> = Vec::new();
    v.push(WidgetKind::Weather.spec());
    v.push(WidgetKind::Clock.spec());
    v.push(WidgetKind::Rss.spec());
    v.push(WidgetKind::Overview.spec());
    v.push(WidgetKind::Containers.spec());
    v.push(WidgetKind::Links.spec());
    assert(type_views(v@) =~= registry());
    v
}

// ---------------------------------------------------------------------------
// Settings
// ---------------------------------------------------------------------------

/// The settings that fields have by default.
pub open spec fn default_settings(fields: Seq<FieldView>) -> Fields
    decreases fields.len(),
{
    if fields.len() == 0 {
        seq![]
    } else {
        with_field(default_settings(fields.drop_last()), fields.last().key, fields.last().default)
    }
}

/// The whole number that a value stands for: itself, however large, or the one
/// that a text writes.
pub open spec fn number_in(v: JsonView) -> Option<int> {
    match v {
        JsonView::Number(NumberView::PosInt(n)) => Some(n as int),
        JsonView::Number(NumberView::NegInt(n)) => Some(n as int),
        JsonView::Str(s) => parse_signed(trimmed(s), i64::MIN as int, i64::MAX as int),
        _ => None,
    }
}

/// The number between the bounds that is nearest to `n`.
pub open spec fn clamped(n: int, lo: int, hi: int) -> int {
    if n < lo {
        lo
    } else if n > hi {
        hi
    } else {
        n
    }
}

/// Is the text one of the values to choose from?
pub open spec fn allowed(f: FieldView, s: Seq<char>) -> bool {
    exists|i: int| 0 <= i < f.options.len() && (#[trigger] f.options[i]).0 == s
}

/// The number of a number field: the incoming one where there is one, else the
/// default, brought between the bounds.
pub open spec fn coerced_number(f: FieldView, raw: Option<JsonView>) -> int {
    let given = match raw {
        Some(v) => number_in(v),
        None => None,
    };
    let n = match given {
        Some(n) => n,
        None => match f.default.as_i64() {
            Some(n) => n as int,
            None => 0,
        },
    };
    let lo = match f.min {
        Some(lo) => lo,
        None => i64::MIN,
    };
    let hi = match f.max {
        Some(hi) => hi,
        None => i64::MAX,
    };
    clamped(n, lo as int, hi as int)
}

/// The text of a text field: the incoming one where there is one, else the
/// default.
pub open spec fn coerced_text(f: FieldView, raw: Option<JsonView>) -> Seq<char> {
    let given = match raw {
        Some(v) => v.as_str(),
        None => None,
    };
    match given {
        Some(s) => s,
        None => match f.default.as_str() {
            Some(s) => s,
            None => seq![],
        },
    }
}

/// The truth value of a checkbox.
pub open spec fn coerced_bool(f: FieldView, raw: Option<JsonView>) -> bool {
    let given = match raw {
        Some(v) => v.as_bool(),
        None => None,
    };
    match given {
        Some(b) => b,
        None => match f.default.as_bool() {
            Some(b) => b,
            None => false,
        },
    }
}

/// The value of a select.
pub open spec fn coerced_choice(f: FieldView, raw: Option<JsonView>) -> JsonView {
    let s = match raw {
        Some(v) => match v.as_str() {
            Some(s) => s,
            None => seq![],
        },
        None => seq![],
    };
    if allowed(f, s) {
        JsonView::Str(s)
    } else {
        f.default
    }
}

/// The value that a field gets from an incoming one, or from none.
pub open spec fn coerced(f: FieldView, raw: Option<JsonView>) -> JsonView {
    match f.kind {
        FieldKind::Number => int_view(coerced_number(f, raw) as i64),
        FieldKind::Checkbox => JsonView::Bool(coerced_bool(f, raw)),
        FieldKind::Select => coerced_choice(f, raw),
        FieldKind::Text | FieldKind::Textarea => JsonView::Str(
            byte_clipped(coerced_text(f, raw), MAX_TEXT as nat),
        ),
    }
}

/// The settings that fields get from an incoming value.
pub open spec fn coerced_settings(fields: Seq<FieldView>, incoming: JsonView) -> Fields
    decreases fields.len(),
{
    if fields.len() == 0 {
        seq![]
    } else {
        let f = fields.last();
        with_field(
            coerced_settings(fields.drop_last(), incoming),
            f.key,
            coerced(f, incoming.get(f.key)),
        )
    }
}

/// The settings of a kind by default.
pub fn defaults_for(kind: WidgetKind) -> (r: JsonMap)
    ensures
        r@ == default_settings(fields_of(kind)),
        r.wf(),
{
    let fields = kind.fields();
    let ghost fv = fields_of(kind);
    let mut out = JsonMap::new();
    let mut i: usize = 0;
    while i < fields.len()
        invariant
            i <= fields@.len(),
            fv == field_views(fields@),
            out@ == default_settings(fv.take(i as int)),
            out.wf(),
        decreases fields.len() - i,
    {
        out.insert(fields[i].key, fields[i].default.dup());
        i = i + 1;
        assert(fv.take(i as int).drop_last() =~= fv.take(i - 1));
        assert(fv.take(i as int).last() == fields@[i - 1]@);
    }
    assert(fv.take(i as int) =~= fv);
    out
}

impl Field {
    /// Are the bounds in order?
    pub open spec fn wf(self) -> bool {
        match (self.min, self.max) {
            (Some(lo), Some(hi)) => lo <= hi,
            _ => true,
        }
    }

    /// Is the text one of the values to choose from?
    fn allows(&self, s: &str) -> (r: bool)
        ensures
            r == allowed(self@, s@),
    {
        let mut i: usize = 0;
        while i < self.options.len()
            invariant
                i <= self.options@.len(),
                forall|j: int| 0 <= j < i ==> (#[trigger] self@.options[j]).0 != s@,
            decreases self.options.len() - i,
        {
            if same(self.options[i].0, s) {
                assert(self@.options[i as int].0 == s@);
                return true;
            }
            i = i + 1;
        }
        false
    }

    /// The number of a number field.
    fn coerce_number(&self, raw: Option<&Json>) -> (r: i64)
        requires
            self.wf(),
        ensures
            r == coerced_number(self@, opt_json(raw)),
    {
        // What is too large for the bounds is brought down to them below.
        let given: Option<i64> = match raw {
            Some(Json::Number(Number::PosInt(n))) => Some(
                if *n > 0x7fff_ffff_ffff_ffff {
                    i64::MAX
                } else {
                    *n as i64
                },
            ),
            Some(Json::Number(Number::NegInt(n))) => Some(*n),
            Some(Json::Str(s)) => {
                let t = trim(s.as_str());
                parse_i64(t.as_str())
            },
            _ => None,
        };
        let n: i64 = match given {
            Some(n) => n,
            None => match self.default.as_i64() {
                Some(n) => n,
                None => 0,
            },
        };
        let lo: i64 = match self.min {
            Some(lo) => lo,
            None => i64::MIN,
        };
        let hi: i64 = match self.max {
            Some(hi) => hi,
            None => i64::MAX,
        };
        if n < lo {
            lo
        } else if n > hi {
            hi
        } else {
            n
        }
    }

    /// The value that the field gets from an incoming one, or from none.
    pub fn coerce(&self, raw: Option<&Json>) -> (r: Json)
        requires
            self.wf(),
        ensures
            r@ == coerced(self@, opt_json(raw)),
    {
        match self.kind {
            FieldKind::Number => Json::whole(self.coerce_number(raw)),
            FieldKind::Checkbox => {
                let given: Option<bool> = match raw {
                    Some(v) => v.as_bool(),
                    None => None,
                };
                let on = match given {
                    Some(b) => b,
                    None => match self.default.as_bool() {
                        Some(b) => b,
                        None => false,
                    },
                };
                Json::Bool(on)
            },
            FieldKind::Select => {
                let s: &str = match raw {
                    Some(v) => match v.as_str() {
                        Some(s) => s,
                        None => "",
                    },
                    None => "",
                };
                proof {
                    reveal_strlit("");
                    assert(""@ =~= Seq::<char>::empty());
                }
                if self.allows(s) {
                    Json::text(s)
                } else {
                    self.default.dup()
                }
            },
            FieldKind::Text | FieldKind::Textarea => {
                let given: Option<&str> = match raw {
                    Some(v) => v.as_str(),
                    None => None,
                };
                let s: &str = match given {
                    Some(s) => s,
                    None => match self.default.as_str() {
                        Some(s) => s,
                        None => "",
                    },
                };
                proof {
                    reveal_strlit("");
                    assert(""@ =~= Seq::<char>::empty());
                }
                let t = clip_bytes(s, MAX_TEXT);
                Json::text(t.as_str())
            },
        }
    }
}

/// Brings incoming settings into the declared shape. Only declared keys survive,
/// each as its declared type. Nothing here can fail: bad input becomes the
/// default.
pub fn coerce_settings(kind: WidgetKind, incoming: &Json) -> (r: JsonMap)
    ensures
        r@ == coerced_settings(fields_of(kind), incoming@),
        r.wf(),
{
    let fields = kind.fields();
    let ghost fv = fields_of(kind);
    let mut out = JsonMap::new();
    let mut i: usize = 0;
    while i < fields.len()
        invariant
            i <= fields@.len(),
            fv == field_views(fields@),
            fv == fields_of(kind),
            out@ == coerced_settings(fv.take(i as int), incoming@),
            out.wf(),
        decreases fields.len() - i,
    {
        let f = &fields[i];
        proof {
            assert(f@ == fv[i as int]);
            lemma_sound(kind, i as int);
        }
        let value = f.coerce(incoming.get(f.key));
        out.insert(f.key, value);
        i = i + 1;
        assert(fv.take(i as int).drop_last() =~= fv.take(i - 1));
        assert(fv.take(i as int).last() == fields@[i - 1]@);
    }
    assert(fv.take(i as int) =~= fv);
    out
}

// ---------------------------------------------------------------------------
// Laws
// ---------------------------------------------------------------------------

/// Does the default have the declared type, and lie within the declared range?
pub open spec fn sound(f: FieldView) -> bool {
    match f.kind {
        FieldKind::Number => {
            &&& f.min is Some
            &&& f.max is Some
            &&& f.default.as_i64() is Some
            &&& f.default == int_view(f.default.as_i64()->0)
            &&& f.min->0 <= f.default.as_i64()->0 <= f.max->0
        },
        FieldKind::Checkbox => f.default is Bool && f.min is None && f.max is None,
        FieldKind::Select => {
            &&& f.default is Str
            &&& allowed(f, f.default->Str_0)
            &&& f.min is None
            &&& f.max is None
        },
        FieldKind::Text | FieldKind::Textarea => {
            &&& f.default is Str
            &&& byte_len(f.default->Str_0) <= MAX_TEXT
            &&& f.min is None
            &&& f.max is None
        },
    }
}

/// A text of ASCII characters takes one byte for each.
proof fn lemma_ascii_len(s: Seq<char>)
    requires
        forall|i: int| 0 <= i < s.len() ==> (#[trigger] s[i]) as u32 <= 0x7f,
    ensures
        byte_len(s) == s.len(),
    decreases s.len(),
{
    if s.len() == 0 {
        assert(s =~= Seq::<char>::empty());
        assert(vstd::utf8::encode_utf8(s).len() == 0);
    } else {
        let t = s.drop_last();
        assert forall|i: int| 0 <= i < t.len() implies (#[trigger] t[i]) as u32 <= 0x7f by {
            assert(t[i] == s[i]);
        }
        lemma_ascii_len(t);
        crate::numbers::lemma_byte_len_push(t, s.last());
        assert(t.push(s.last()) =~= s);
        assert(s[s.len() - 1] as u32 <= 0x7f);
    }
}

/// Every field of the registry is sound.
proof fn lemma_sound(kind: WidgetKind, i: int)
    requires
        0 <= i < fields_of(kind).len(),
    ensures
        sound(fields_of(kind)[i]),
{
    let f = fields_of(kind)[i];
    reveal_strlit("Berlin");
    reveal_strlit("");
    reveal_strlit("https://news.ycombinator.com/rss");
    reveal_strlit("MinDash|https://example.com");
    match f.kind {
        FieldKind::Text | FieldKind::Textarea => {
            lemma_ascii_len(f.default->Str_0);
        },
        FieldKind::Select => {
            assert(f.options[0].0 == f.default->Str_0);
        },
        _ => {},
    }
}

/// No two fields of a kind have the same key.
proof fn lemma_distinct(kind: WidgetKind, i: int, j: int)
    requires
        0 <= i < j < fields_of(kind).len(),
    ensures
        fields_of(kind)[i].key != fields_of(kind)[j].key,
{
    reveal_strlit("location");
    reveal_strlit("units");
    reveal_strlit("days");
    reveal_strlit("label");
    reveal_strlit("format");
    reveal_strlit("seconds");
    reveal_strlit("date");
    reveal_strlit("feeds");
    reveal_strlit("limit");
    reveal_strlit("thumbs");
    reveal_strlit("show_cpu");
    reveal_strlit("show_ram");
    reveal_strlit("show_containers");
    reveal_strlit("running_only");
    assert("feeds"@[0] != "limit"@[0]);
    assert("show_cpu"@[5] != "show_ram"@[5]);
    let k = |n: int| fields_of(kind)[n].key;
    match kind {
        WidgetKind::Weather => {
            assert(k(0).len() == 8 && k(1).len() == 5 && k(2).len() == 4);
        },
        WidgetKind::Clock => {
            assert(k(0).len() == 5 && k(1).len() == 6 && k(2).len() == 7 && k(3).len() == 4);
        },
        WidgetKind::Rss => {
            assert(k(0)[0] == 'f' && k(1)[0] == 'l' && k(2)[0] == 't');
        },
        WidgetKind::Overview => {
            assert(k(0)[5] == 'c' && k(1)[5] == 'r' && k(2).len() == 15);
        },
        WidgetKind::Containers => {
            assert(k(0).len() == 5 && k(1).len() == 12);
        },
        WidgetKind::Links => {},
    }
}

/// Are the keys of the fields different from one another?
pub open spec fn distinct(fields: Seq<FieldView>) -> bool {
    forall|i: int, j: int| 0 <= i < j < fields.len() ==> #[trigger] fields[i].key != #[trigger] fields[j].key
}

/// What the settings of some fields hold under a key.
proof fn lemma_settings_hold(fields: Seq<FieldView>, incoming: JsonView, key: Seq<char>)
    requires
        distinct(fields),
    ensures
        keys_ascend(coerced_settings(fields, incoming)),
        coerced_settings(fields, incoming).len() == fields.len(),
        forall|i: int|
            0 <= i < fields.len() && (#[trigger] fields[i]).key == key ==> field(
                coerced_settings(fields, incoming),
                key,
            ) == Some(coerced(fields[i], incoming.get(key))),
        (forall|i: int| 0 <= i < fields.len() ==> (#[trigger] fields[i]).key != key) ==> field(
            coerced_settings(fields, incoming),
            key,
        ) is None,
    decreases fields.len(),
{
    if fields.len() > 0 {
        let t = fields.drop_last();
        let f = fields.last();
        assert(distinct(t)) by {
            assert forall|i: int, j: int| 0 <= i < j < t.len() implies #[trigger] t[i].key
                != #[trigger] t[j].key by {
                assert(t[i] == fields[i] && t[j] == fields[j]);
            }
        }
        let rest = coerced_settings(t, incoming);
        lemma_settings_hold(t, incoming, key);
        lemma_settings_hold(t, incoming, f.key);
        assert forall|i: int| 0 <= i < t.len() implies (#[trigger] t[i]).key != f.key by {
            assert(t[i] == fields[i]);
            assert(fields[i].key != fields[fields.len() - 1].key);
        }
        let v = coerced(f, incoming.get(f.key));
        set_then_get(rest, f.key, v, key);
        set_keeps_keys_ascending(rest, f.key, v);
        assert forall|i: int|
            0 <= i < fields.len() && (#[trigger] fields[i]).key == key implies field(
            coerced_settings(fields, incoming),
            key,
        ) == Some(coerced(fields[i], incoming.get(key))) by {
            if i < t.len() {
                assert(t[i] == fields[i]);
                assert(fields[i].key != fields[fields.len() - 1].key);
            }
        }
        if forall|i: int| 0 <= i < fields.len() ==> (#[trigger] fields[i]).key != key {
            assert(fields[fields.len() - 1].key != key);
            assert forall|i: int| 0 <= i < t.len() implies (#[trigger] t[i]).key != key by {
                assert(t[i] == fields[i]);
            }
        }
    }
}

/// The fields of a kind have different keys.
proof fn lemma_fields_distinct(kind: WidgetKind)
    ensures
        distinct(fields_of(kind)),
{
    let fs = fields_of(kind);
    assert forall|i: int, j: int| 0 <= i < j < fs.len() implies #[trigger] fs[i].key
        != #[trigger] fs[j].key by {
        lemma_distinct(kind, i, j);
    }
}

/// Exactly the declared keys survive, one setting each, and each holds what its
/// field makes of the incoming value.
pub proof fn only_declared_settings_survive(kind: WidgetKind, incoming: JsonView, key: Seq<char>)
    ensures
        coerced_settings(fields_of(kind), incoming).len() == fields_of(kind).len(),
        forall|i: int|
            0 <= i < fields_of(kind).len() && (#[trigger] fields_of(kind)[i]).key == key ==> field(
                coerced_settings(fields_of(kind), incoming),
                key,
            ) == Some(coerced(fields_of(kind)[i], incoming.get(key))),
        (forall|i: int| 0 <= i < fields_of(kind).len() ==> (#[trigger] fields_of(kind)[i]).key != key)
            ==> field(coerced_settings(fields_of(kind), incoming), key) is None,
{
    lemma_fields_distinct(kind);
    lemma_settings_hold(fields_of(kind), incoming, key);
}

/// Does the value have the type and the range that the field declares?
pub open spec fn fits(f: FieldView, v: JsonView) -> bool {
    match f.kind {
        FieldKind::Number => v.as_i64() matches Some(n) && f.min->0 <= n <= f.max->0,
        FieldKind::Checkbox => v is Bool,
        FieldKind::Select => v is Str && allowed(f, v->Str_0),
        FieldKind::Text | FieldKind::Textarea => v is Str && byte_len(v->Str_0) <= MAX_TEXT,
    }
}

/// Whatever comes in, a setting has the type and the range that its field
/// declares.
pub proof fn settings_fit_their_fields(kind: WidgetKind, i: int, raw: Option<JsonView>)
    requires
        0 <= i < fields_of(kind).len(),
    ensures
        fits(fields_of(kind)[i], coerced(fields_of(kind)[i], raw)),
{
    lemma_sound(kind, i);
    byte_clipped_is_the_longest_fit(coerced_text(fields_of(kind)[i], raw), MAX_TEXT as nat);
}

/// Where nothing comes in for a key, the setting is the default.
proof fn lemma_missing_is_default(kind: WidgetKind, i: int)
    requires
        0 <= i < fields_of(kind).len(),
    ensures
        coerced(fields_of(kind)[i], None) == fields_of(kind)[i].default,
{
    let f = fields_of(kind)[i];
    lemma_sound(kind, i);
    match f.kind {
        FieldKind::Text | FieldKind::Textarea => {
            byte_clipped_is_the_longest_fit(f.default->Str_0, MAX_TEXT as nat);
        },
        FieldKind::Select => {
            if allowed(f, seq![]) {
                let k = choose|k: int|
                    0 <= k < f.options.len() && (#[trigger] f.options[k]).0 == Seq::<char>::empty();
                reveal_strlit("c");
                reveal_strlit("f");
                reveal_strlit("24");
                reveal_strlit("12");
                assert(f.options[k].0.len() > 0);
            }
        },
        _ => {},
    }
}

/// A setting that was brought into shape stays as it is.
proof fn lemma_coerced_stays(kind: WidgetKind, i: int, raw: Option<JsonView>)
    requires
        0 <= i < fields_of(kind).len(),
    ensures
        coerced(fields_of(kind)[i], Some(coerced(fields_of(kind)[i], raw))) == coerced(
            fields_of(kind)[i],
            raw,
        ),
{
    let f = fields_of(kind)[i];
    lemma_sound(kind, i);
    match f.kind {
        FieldKind::Text | FieldKind::Textarea => {
            let s = coerced_text(f, raw);
            byte_clipped_is_the_longest_fit(s, MAX_TEXT as nat);
            byte_clipped_is_the_longest_fit(byte_clipped(s, MAX_TEXT as nat), MAX_TEXT as nat);
        },
        _ => {},
    }
}

/// Two rows of settings made from values that agree under every field's key are
/// the same.
proof fn lemma_settings_agree(fields: Seq<FieldView>, a: JsonView, b: JsonView)
    requires
        forall|i: int|
            0 <= i < fields.len() ==> coerced(#[trigger] fields[i], a.get(fields[i].key)) == coerced(
                fields[i],
                b.get(fields[i].key),
            ),
    ensures
        coerced_settings(fields, a) == coerced_settings(fields, b),
    decreases fields.len(),
{
    if fields.len() > 0 {
        let t = fields.drop_last();
        assert forall|i: int| 0 <= i < t.len() implies coerced(#[trigger] t[i], a.get(t[i].key))
            == coerced(t[i], b.get(t[i].key)) by {
            assert(t[i] == fields[i]);
        }
        lemma_settings_agree(t, a, b);
        let f = fields[fields.len() - 1];
        assert(coerced(f, a.get(f.key)) == coerced(f, b.get(f.key)));
    }
}

/// Bringing settings into shape a second time changes nothing.
pub proof fn coercion_is_idempotent(kind: WidgetKind, incoming: JsonView)
    ensures
        coerced_settings(
            fields_of(kind),
            JsonView::Object(coerced_settings(fields_of(kind), incoming)),
        ) == coerced_settings(fields_of(kind), incoming),
{
    let fs = fields_of(kind);
    let once = JsonView::Object(coerced_settings(fs, incoming));
    assert forall|i: int| 0 <= i < fs.len() implies coerced(#[trigger] fs[i], once.get(fs[i].key))
        == coerced(fs[i], incoming.get(fs[i].key)) by {
        only_declared_settings_survive(kind, incoming, fs[i].key);
        lemma_coerced_stays(kind, i, incoming.get(fs[i].key));
    }
    lemma_settings_agree(fs, once, incoming);
}

/// The default settings are what some fields make of a value that has none of
/// their keys.
proof fn lemma_defaults_agree(fields: Seq<FieldView>, incoming: JsonView)
    requires
        forall|i: int|
            0 <= i < fields.len() ==> coerced(#[trigger] fields[i], incoming.get(fields[i].key))
                == fields[i].default,
    ensures
        coerced_settings(fields, incoming) == default_settings(fields),
    decreases fields.len(),
{
    if fields.len() > 0 {
        let t = fields.drop_last();
        assert forall|i: int| 0 <= i < t.len() implies coerced(
            #[trigger] t[i],
            incoming.get(t[i].key),
        ) == t[i].default by {
            assert(t[i] == fields[i]);
        }
        lemma_defaults_agree(t, incoming);
        let f = fields[fields.len() - 1];
        assert(coerced(f, incoming.get(f.key)) == f.default);
    }
}

/// A value with none of the declared keys, whatever else it holds, gives the
/// default settings.
pub proof fn missing_settings_are_the_defaults(kind: WidgetKind, incoming: JsonView)
    requires
        forall|i: int|
            0 <= i < fields_of(kind).len() ==> incoming.get((#[trigger] fields_of(kind)[i]).key)
                is None,
    ensures
        coerced_settings(fields_of(kind), incoming) == default_settings(fields_of(kind)),
{
    let fs = fields_of(kind);
    assert forall|i: int| 0 <= i < fs.len() implies coerced(
        #[trigger] fs[i],
        incoming.get(fs[i].key),
    ) == fs[i].default by {
        lemma_missing_is_default(kind, i);
    }
    lemma_defaults_agree(fs, incoming);
}

/// The default settings cover every field, once each, and are in shape already.
pub proof fn defaults_cover_every_field(kind: WidgetKind)
    ensures
        default_settings(fields_of(kind)).len() == fields_of(kind).len(),
        coerced_settings(fields_of(kind), JsonView::Object(default_settings(fields_of(kind))))
            == default_settings(fields_of(kind)),
{
    let none = JsonView::Null;
    missing_settings_are_the_defaults(kind, none);
    only_declared_settings_survive(kind, none, seq![]);
    coercion_is_idempotent(kind, none);
}

// ---------------------------------------------------------------------------
// Widgets
// ---------------------------------------------------------------------------

/// The text setting under a key, or the empty text.
pub open spec fn text_setting(settings: Fields, key: Seq<char>) -> Seq<char> {
    match field(settings, key) {
        Some(v) => match v.as_str() {
            Some(s) => s,
            None => seq![],
        },
        None => seq![],
    }
}

/// The number setting under a key, or 0.
pub open spec fn number_setting(settings: Fields, key: Seq<char>) -> i64 {
    match field(settings, key) {
        Some(v) => match v.as_i64() {
            Some(n) => n,
            None => 0,
        },
        None => 0,
    }
}

/// The checkbox setting under a key, or off.
pub open spec fn flag_setting(settings: Fields, key: Seq<char>) -> bool {
    match field(settings, key) {
        Some(v) => match v.as_bool() {
            Some(b) => b,
            None => false,
        },
        None => false,
    }
}

impl Widget {
    /// A widget with the default settings of its kind.
    pub fn new(id: &str, kind: WidgetKind) -> (r: Widget)
        ensures
            r.id@ == id@,
            r.kind == kind,
            r.title@ == type_of(kind).title,
            r.icon@ == type_of(kind).icon,
            r.settings@ == default_settings(fields_of(kind)),
    {
        let t = kind.spec();
        Widget {
            id: String::from_str(id),
            kind,
            title: String::from_str(t.title),
            icon: String::from_str(t.icon),
            settings: defaults_for(kind),
        }
    }

    /// A copy.
    pub fn dup(&self) -> (r: Widget)
        ensures
            r.id@ == self.id@,
            r.kind == self.kind,
            r.title@ == self.title@,
            r.icon@ == self.icon@,
            r.settings@ == self.settings@,
    {
        Widget {
            id: self.id.clone(),
            kind: self.kind,
            title: self.title.clone(),
            icon: self.icon.clone(),
            settings: self.settings.dup(),
        }
    }

    /// The title, or that of the kind where there is none.
    pub fn resolved_title(&self) -> (r: &str)
        ensures
            r@ == if self.title@.len() == 0 {
                type_of(self.kind).title
            } else {
                self.title@
            },
            r@.len() > 0,
    {
        proof {
            lemma_named(self.kind);
        }
        if self.title.as_str().is_empty() {
            self.kind.spec().title
        } else {
            self.title.as_str()
        }
    }

    /// The icon, or that of the kind where there is none.
    pub fn resolved_icon(&self) -> (r: &str)
        ensures
            r@ == if self.icon@.len() == 0 {
                type_of(self.kind).icon
            } else {
                self.icon@
            },
            r@.len() > 0,
    {
        proof {
            lemma_named(self.kind);
        }
        if self.icon.as_str().is_empty() {
            self.kind.spec().icon
        } else {
            self.icon.as_str()
        }
    }

    /// A text setting.
    pub fn get_str(&self, key: &str) -> (r: String)
        ensures
            r@ == text_setting(self.settings@, key@),
    {
        match self.settings.get(key) {
            Some(v) => match v.as_str() {
                Some(s) => String::from_str(s),
                None => String::new(),
            },
            None => String::new(),
        }
    }

    /// A number setting.
    pub fn get_i64(&self, key: &str) -> (r: i64)
        ensures
            r == number_setting(self.settings@, key@),
    {
        match self.settings.get(key) {
            Some(v) => match v.as_i64() {
                Some(n) => n,
                None => 0,
            },
            None => 0,
        }
    }

    /// A checkbox setting.
    pub fn get_bool(&self, key: &str) -> (r: bool)
        ensures
            r == flag_setting(self.settings@, key@),
    {
        match self.settings.get(key) {
            Some(v) => match v.as_bool() {
                Some(b) => b,
                None => false,
            },
            None => false,
        }
    }
}

/// Every kind has a title, an icon and settings.
proof fn lemma_named(kind: WidgetKind)
    ensures
        type_of(kind).title.len() > 0,
        type_of(kind).icon.len() > 0,
        type_of(kind).fields.len() > 0,
{
    reveal_strlit("Weather");
    reveal_strlit("cloud-sun");
    reveal_strlit("Clock");
    reveal_strlit("clock");
    reveal_strlit("News");
    reveal_strlit("rss");
    reveal_strlit("Overview");
    reveal_strlit("activity");
    reveal_strlit("Containers");
    reveal_strlit("box");
    reveal_strlit("Links");
    reveal_strlit("link");
}

/// Every kind has a title, an icon and at least one setting.
pub proof fn every_kind_is_described(kind: WidgetKind)
    ensures
        type_of(kind).title.len() > 0,
        type_of(kind).icon.len() > 0,
        type_of(kind).fields.len() > 0,
        type_of(kind).kind == kind,
{
    lemma_named(kind);
}

// ---------------------------------------------------------------------------
// Laws of the registry and of single settings
// ---------------------------------------------------------------------------

/// The kinds have their names, titles, icons and labels, and the registry holds
/// them all, each once.
pub proof fn the_kinds_are_called(k: WidgetKind)
    ensures
        k is Weather ==> k.name() == "weather"@ && type_of(k).title == "Weather"@ && type_of(k).icon
            == "cloud-sun"@ && type_of(k).label == "Weather"@,
        k is Clock ==> k.name() == "clock"@ && type_of(k).title == "Clock"@ && type_of(k).icon
            == "clock"@ && type_of(k).label == "Clock"@,
        k is Rss ==> k.name() == "rss"@ && type_of(k).title == "News"@ && type_of(k).icon == "rss"@
            && type_of(k).label == "News (RSS/Atom)"@,
        k is Overview ==> k.name() == "overview"@ && type_of(k).title == "Overview"@ && type_of(
            k,
        ).icon == "activity"@ && type_of(k).label == "System overview"@,
        k is Containers ==> k.name() == "containers"@ && type_of(k).title == "Containers"@
            && type_of(k).icon == "box"@ && type_of(k).label == "Containers"@,
        k is Links ==> k.name() == "links"@ && type_of(k).title == "Links"@ && type_of(k).icon
            == "link"@ && type_of(k).label == "Links"@,
        type_of(k).fields == fields_of(k),
        registry().len() == 6,
        registry()[0].kind is Weather && registry()[1].kind is Clock && registry()[2].kind is Rss,
        registry()[3].kind is Overview && registry()[4].kind is Containers,
        registry()[5].kind is Links,
        registry().contains(type_of(k)),
{
    let r = registry();
    match k {
        WidgetKind::Weather => assert(r[0] == type_of(k)),
        WidgetKind::Clock => assert(r[1] == type_of(k)),
        WidgetKind::Rss => assert(r[2] == type_of(k)),
        WidgetKind::Overview => assert(r[3] == type_of(k)),
        WidgetKind::Containers => assert(r[4] == type_of(k)),
        WidgetKind::Links => assert(r[5] == type_of(k)),
    }
}

/// The weather is that of Berlin in degrees Celsius with three days of forecast,
/// until it is set otherwise: to any place, to Fahrenheit, to between none and
/// five days.
pub proof fn the_weather_by_default()
    ensures
        ({
            let d = default_settings(fields_of(WidgetKind::Weather));
            let f = fields_of(WidgetKind::Weather);
            &&& field(d, "location"@) == Some(JsonView::Str("Berlin"@))
            &&& field(d, "units"@) == Some(JsonView::Str("c"@))
            &&& field(d, "days"@) == Some(int_view(3))
            &&& f.len() == 3
            &&& f[0].key == "location"@ && f[0].kind is Text
            &&& f[1].key == "units"@ && f[1].kind is Select
            &&& forall|s: Seq<char>| #[trigger] allowed(f[1], s) <==> s == "c"@ || s == "f"@
            &&& f[2].key == "days"@ && f[2].kind is Number && f[2].min == Some(0i64) && f[2].max
                == Some(5i64)
        }),
{
    broadcast use crate::json::reading_behind_setting;

    reveal_strlit("location");
    reveal_strlit("Berlin");
    reveal_strlit("units");
    reveal_strlit("c");
    reveal_strlit("days");
    reveal_strlit("f");
    assert("location"@.len() == 8 && "Berlin"@.len() == 6 && "units"@.len() == 5);
    assert("c"@.len() == 1 && "days"@.len() == 4 && "f"@.len() == 1);
    assert("c"@[0] == 'c');
    assert("f"@[0] == 'f');
    reveal_with_fuel(default_settings, 5);
    let f = fields_of(WidgetKind::Weather);
    assert(f.drop_last().last() == f[1] && f.drop_last().drop_last().last() == f[0]);
    assert(f[1].options[0].0 == "c"@ && f[1].options[1].0 == "f"@);
}

/// The clock shows twenty-four hours and the date, without seconds and without a
/// label, until it is set otherwise.
pub proof fn the_clock_by_default()
    ensures
        ({
            let d = default_settings(fields_of(WidgetKind::Clock));
            let f = fields_of(WidgetKind::Clock);
            &&& field(d, "label"@) == Some(JsonView::Str(""@))
            &&& field(d, "format"@) == Some(JsonView::Str("24"@))
            &&& field(d, "seconds"@) == Some(JsonView::Bool(false))
            &&& field(d, "date"@) == Some(JsonView::Bool(true))
            &&& f.len() == 4
            &&& f[0].key == "label"@ && f[0].kind is Text
            &&& f[1].key == "format"@ && f[1].kind is Select
            &&& forall|s: Seq<char>| #[trigger] allowed(f[1], s) <==> s == "24"@ || s == "12"@
            &&& f[2].key == "seconds"@ && f[2].kind is Checkbox
            &&& f[3].key == "date"@ && f[3].kind is Checkbox
        }),
{
    broadcast use crate::json::reading_behind_setting;

    reveal_strlit("label");
    reveal_strlit("");
    reveal_strlit("format");
    reveal_strlit("24");
    reveal_strlit("seconds");
    reveal_strlit("date");
    reveal_strlit("12");
    assert("label"@.len() == 5 && ""@.len() == 0 && "format"@.len() == 6 && "24"@.len() == 2);
    assert("seconds"@.len() == 7 && "date"@.len() == 4 && "12"@.len() == 2);
    assert("24"@[0] == '2');
    assert("12"@[0] == '1');
    reveal_with_fuel(default_settings, 6);
    let f = fields_of(WidgetKind::Clock);
    assert(f.drop_last().last() == f[2] && f.drop_last().drop_last().last() == f[1]);
    assert(f.drop_last().drop_last().drop_last().last() == f[0]);
    assert(f[1].options[0].0 == "24"@ && f[1].options[1].0 == "12"@);
}

/// The news are eight items of one feed with their pictures, until they are set
/// otherwise: to between one and thirty items.
pub proof fn the_news_by_default()
    ensures
        ({
            let d = default_settings(fields_of(WidgetKind::Rss));
            let f = fields_of(WidgetKind::Rss);
            &&& field(d, "feeds"@) == Some(JsonView::Str("https://news.ycombinator.com/rss"@))
            &&& field(d, "limit"@) == Some(int_view(8))
            &&& field(d, "thumbs"@) == Some(JsonView::Bool(true))
            &&& f.len() == 3
            &&& f[0].key == "feeds"@ && f[0].kind is Textarea
            &&& f[1].key == "limit"@ && f[1].kind is Number && f[1].min == Some(1i64) && f[1].max
                == Some(30i64)
            &&& f[2].key == "thumbs"@ && f[2].kind is Checkbox
        }),
{
    broadcast use crate::json::reading_behind_setting;

    reveal_strlit("feeds");
    reveal_strlit("https://news.ycombinator.com/rss");
    reveal_strlit("limit");
    reveal_strlit("thumbs");
    assert("feeds"@.len() == 5 && "https://news.ycombinator.com/rss"@.len() == 32);
    assert("limit"@.len() == 5 && "thumbs"@.len() == 6);
    assert("feeds"@[0] == 'f');
    assert("limit"@[0] == 'l');
    reveal_with_fuel(default_settings, 5);
    let f = fields_of(WidgetKind::Rss);
    assert(f.drop_last().last() == f[1] && f.drop_last().drop_last().last() == f[0]);
}

/// The overview shows everything, until it is set otherwise.
pub proof fn the_overview_by_default()
    ensures
        ({
            let d = default_settings(fields_of(WidgetKind::Overview));
            let f = fields_of(WidgetKind::Overview);
            &&& field(d, "show_cpu"@) == Some(JsonView::Bool(true))
            &&& field(d, "show_ram"@) == Some(JsonView::Bool(true))
            &&& field(d, "show_containers"@) == Some(JsonView::Bool(true))
            &&& f.len() == 3
            &&& f[0].key == "show_cpu"@ && f[0].kind is Checkbox
            &&& f[1].key == "show_ram"@ && f[1].kind is Checkbox
            &&& f[2].key == "show_containers"@ && f[2].kind is Checkbox
        }),
{
    broadcast use crate::json::reading_behind_setting;

    reveal_strlit("show_cpu");
    reveal_strlit("show_ram");
    reveal_strlit("show_containers");
    assert("show_cpu"@.len() == 8 && "show_ram"@.len() == 8 && "show_containers"@.len() == 15);
    assert("show_cpu"@[5] == 'c');
    assert("show_ram"@[5] == 'r');
    reveal_with_fuel(default_settings, 5);
    let f = fields_of(WidgetKind::Overview);
    assert(f.drop_last().last() == f[1] && f.drop_last().drop_last().last() == f[0]);
}

/// Ten containers are shown, running or not, until it is set otherwise: between
/// one and fifty. The links are one example until they are set.
pub proof fn containers_and_links_by_default()
    ensures
        ({
            let d = default_settings(fields_of(WidgetKind::Containers));
            let f = fields_of(WidgetKind::Containers);
            &&& field(d, "limit"@) == Some(int_view(10))
            &&& field(d, "running_only"@) == Some(JsonView::Bool(false))
            &&& f.len() == 2
            &&& f[0].key == "limit"@ && f[0].kind is Number && f[0].min == Some(1i64) && f[0].max
                == Some(50i64)
            &&& f[1].key == "running_only"@ && f[1].kind is Checkbox
        }),
        ({
            let d = default_settings(fields_of(WidgetKind::Links));
            let f = fields_of(WidgetKind::Links);
            &&& field(d, "items"@) == Some(JsonView::Str("MinDash|https://example.com"@))
            &&& f.len() == 1
            &&& f[0].key == "items"@ && f[0].kind is Textarea
        }),
{
    broadcast use crate::json::reading_behind_setting;

    reveal_strlit("limit");
    reveal_strlit("running_only");
    reveal_strlit("items");
    reveal_strlit("MinDash|https://example.com");
    assert("limit"@.len() == 5 && "running_only"@.len() == 12 && "items"@.len() == 5);
    assert("MinDash|https://example.com"@.len() == 27);
    assert("limit"@[0] == 'l');
    assert("items"@[0] == 'i');
    reveal_with_fuel(default_settings, 4);
    let f = fields_of(WidgetKind::Containers);
    assert(f.drop_last().last() == f[0]);
}

/// The fields of the kinds have their labels, and some have a hint.
pub proof fn the_fields_have_their_labels()
    ensures
        ({
            let f = fields_of(WidgetKind::Weather);
            &&& f[0].label == "Location"@ && f[0].hint == Some("City name, or lat,lon"@)
            &&& f[1].label == "Units"@ && f[1].hint is None
            &&& f[1].options == seq![("c"@, "Celsius"@), ("f"@, "Fahrenheit"@)]
            &&& f[2].label == "Forecast days"@ && f[2].hint is None
        }),
        ({
            let f = fields_of(WidgetKind::Clock);
            &&& f[0].label == "Label"@ && f[1].label == "Format"@
            &&& f[1].options == seq![("24"@, "24-hour"@), ("12"@, "12-hour"@)]
            &&& f[2].label == "Show seconds"@ && f[3].label == "Show date"@
        }),
        ({
            let f = fields_of(WidgetKind::Rss);
            &&& f[0].label == "Feed URLs"@ && f[0].hint == Some("One URL per line"@)
            &&& f[1].label == "Items"@ && f[2].label == "Show thumbnails"@
        }),
        ({
            let f = fields_of(WidgetKind::Overview);
            &&& f[0].label == "Show average CPU"@ && f[1].label == "Show memory"@
            &&& f[2].label == "Show container counts"@
        }),
        ({
            let f = fields_of(WidgetKind::Containers);
            &&& f[0].label == "Max shown"@ && f[1].label == "Running only"@
        }),
        ({
            let f = fields_of(WidgetKind::Links);
            &&& f[0].label == "Links"@ && f[0].hint == Some("One per line, as Name|URL"@)
        }),
{
}

/// The texts of options are those of their values and of their labels, in their
/// order.
pub proof fn options_keep_their_labels(v: Seq<(&'static str, &'static str)>, i: int)
    requires
        0 <= i < v.len(),
    ensures
        option_views(v).len() == v.len(),
        option_views(v)[i].0 == v[i].0@,
        option_views(v)[i].1 == v[i].1@,
{
}

/// A field and what the registry says of a kind mean what they hold.
pub proof fn fields_and_kinds_mean_what_they_hold(f: Field, t: WidgetType, i: int)
    ensures
        f@.key == f.key@ && f@.label == f.label@ && f@.kind == f.kind,
        f@.default == f.default@ && f@.min == f.min && f@.max == f.max,
        f@.options.len() == f.options@.len(),
        f.hint is None <==> f@.hint is None,
        f.hint matches Some(h) ==> f@.hint == Some(h@),
        t@.kind == t.kind && t@.label == t.label@ && t@.title == t.title@ && t@.icon == t.icon@,
        t@.fields.len() == t.fields@.len(),
        0 <= i < t.fields@.len() ==> t@.fields[i] == t.fields@[i]@,
{
}

/// A number that comes in is kept where it lies between the bounds; below them it
/// becomes the lower and above them the upper. It may come as a text, with white
/// space around it. What is no number is the default.
pub proof fn a_number_is_brought_between_its_bounds(f: FieldView, n: i64, lo: i64, hi: i64)
    requires
        f.kind is Number,
        f.min == Some(lo),
        f.max == Some(hi),
        lo <= hi,
    ensures
        ({
            let kept = if n < lo {
                lo
            } else if n > hi {
                hi
            } else {
                n
            };
            &&& coerced(f, Some(int_view(n))) == int_view(kept)
            &&& coerced(f, Some(JsonView::Str(signed_decimal(n as int)))) == int_view(kept)
        }),
        f.default.as_i64() matches Some(d) && lo <= d <= hi ==> {
            let d = f.default.as_i64()->0;
            &&& coerced(f, None) == int_view(d)
            &&& coerced(f, Some(JsonView::Null)) == int_view(d)
            &&& coerced(f, Some(JsonView::Bool(true))) == int_view(d)
        },
{
    signed_decimal_reads_back(n as int, i64::MIN as int, i64::MAX as int);
    lemma_signed_is_tidy(n as int);
}

/// A number larger than an `i64` holds becomes the upper bound.
pub proof fn a_huge_number_is_the_upper_bound(f: FieldView, n: u64, lo: i64, hi: i64)
    requires
        f.kind is Number,
        f.min == Some(lo),
        f.max == Some(hi),
        lo <= hi,
        n > i64::MAX,
    ensures
        coerced(f, Some(JsonView::Number(NumberView::PosInt(n)))) == int_view(hi),
{
}

/// A signed number has no white space at its ends.
proof fn lemma_signed_is_tidy(n: int)
    ensures
        trimmed(signed_decimal(n)) == signed_decimal(n),
{
    let s = signed_decimal(n);
    if n < 0 {
        let d = crate::numbers::decimal((-n) as nat);
        crate::numbers::lemma_decimal((-n) as nat);
        assert(is_digit(d.last()));
        assert(s.last() == d.last() && s[0] == '-');
    } else {
        crate::numbers::lemma_decimal(n as nat);
        assert(is_digit(s[0]) && is_digit(s.last()));
    }
    a_tidy_text_is_kept(s);
}

/// A text that comes in is kept, as far as two thousand bytes reach; anything else
/// is the default.
pub proof fn a_text_is_kept_as_far_as_it_fits(f: FieldView, s: Seq<char>)
    requires
        f.kind is Text || f.kind is Textarea,
    ensures
        byte_len(s) <= 2000 ==> coerced(f, Some(JsonView::Str(s))) == JsonView::Str(s),
        coerced(f, Some(JsonView::Str(s))) matches JsonView::Str(t) && t == byte_clipped(s, 2000),
        f.default matches JsonView::Str(d) && byte_len(d) <= 2000 ==> coerced(f, None) == f.default
            && coerced(f, Some(JsonView::Bool(true))) == f.default,
{
    byte_clipped_is_the_longest_fit(s, 2000);
    if let JsonView::Str(d) = f.default {
        byte_clipped_is_the_longest_fit(d, 2000);
    }
}

/// A checkbox is as it comes in, and by default where nothing does or no truth
/// value.
pub proof fn a_checkbox_is_kept(f: FieldView, on: bool)
    requires
        f.kind is Checkbox,
    ensures
        coerced(f, Some(JsonView::Bool(on))) == JsonView::Bool(on),
        f.default == JsonView::Bool(on) ==> coerced(f, None) == JsonView::Bool(on) && coerced(
            f,
            Some(JsonView::Null),
        ) == JsonView::Bool(on),
{
}

/// A choice is kept where it is among the options, and is the default otherwise.
pub proof fn a_choice_is_kept_among_its_options(f: FieldView, s: Seq<char>, i: int)
    requires
        f.kind is Select,
    ensures
        0 <= i < f.options.len() && f.options[i].0 == s ==> coerced(f, Some(JsonView::Str(s)))
            == JsonView::Str(s),
        (forall|k: int| 0 <= k < f.options.len() ==> (#[trigger] f.options[k]).0 != s) ==> coerced(
            f,
            Some(JsonView::Str(s)),
        ) == f.default,
{
    if 0 <= i < f.options.len() && f.options[i].0 == s {
        assert(allowed(f, s));
    }
}

/// A number field without bounds takes any whole number.
pub proof fn a_number_without_bounds_is_kept(f: FieldView, n: i64)
    requires
        f.kind is Number,
        f.min is None,
        f.max is None,
    ensures
        coerced(f, Some(int_view(n))) == int_view(n),
{
}

/// A field whose default is of another type falls back to off, to nothing, or to
/// the number nearest to zero.
pub proof fn a_field_without_a_default_falls_back(f: FieldView)
    requires
        f.default is Null,
    ensures
        f.kind is Checkbox ==> coerced(f, None) == JsonView::Bool(false),
        f.kind is Text || f.kind is Textarea ==> coerced(f, None) == JsonView::Str(seq![]),
        f.kind is Number && f.min is None && f.max is None ==> coerced(f, None) == int_view(0),
        f.kind is Select && f.options.len() == 0 ==> coerced(f, None) == JsonView::Null,
{
    byte_clipped_is_the_longest_fit(seq![], 2000);
    assert(byte_clipped(seq![], 2000) =~= Seq::<char>::empty());
}

/// A number is brought to the nearest one between the bounds.
pub proof fn clamping_goes_to_the_nearest(n: int, lo: int, hi: int)
    requires
        lo <= hi,
    ensures
        lo <= clamped(n, lo, hi) <= hi,
        lo <= n <= hi ==> clamped(n, lo, hi) == n,
        n <= lo ==> clamped(n, lo, hi) == lo,
        n >= hi ==> clamped(n, lo, hi) == hi,
{
}

/// A setting reads as it was set, in its type; in another type, or where it is
/// not set, it is empty, zero or off.
pub proof fn a_setting_reads_as_it_was_set(
    m: Fields,
    key: Seq<char>,
    s: Seq<char>,
    n: i64,
    on: bool,
)
    ensures
        text_setting(with_field(m, key, JsonView::Str(s)), key) == s,
        number_setting(with_field(m, key, int_view(n)), key) == n,
        flag_setting(with_field(m, key, JsonView::Bool(on)), key) == on,
        text_setting(with_field(m, key, int_view(n)), key).len() == 0,
        number_setting(with_field(m, key, JsonView::Str(s)), key) == 0,
        !flag_setting(with_field(m, key, JsonView::Str(s)), key),
        field(m, key) is None ==> text_setting(m, key).len() == 0 && number_setting(m, key) == 0
            && !flag_setting(m, key),
{
    broadcast use crate::json::reading_behind_setting;

}

} // verus!
