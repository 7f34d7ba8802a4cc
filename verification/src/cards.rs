//! The widget cards in the browser: what they show, and their editor.

use vstd::prelude::*;

use crate::json::{
    field, int_view, number_text, text_of, text_or, with_field, Fields, Json, JsonMap, JsonView,
};
use crate::numbers::{
    decimal, decimal_reads_back, lemma_decimal, parse_i64, parse_signed, parse_unsigned,
    signed_decimal, to_decimal, to_signed_decimal,
};
use crate::text::{concat2, same, trim, trimmed};
use crate::widgets::{clamped, Field, FieldKind, FieldView, WidgetKind};

verus! {

// ---------------------------------------------------------------------------
// What a widget shows
// ---------------------------------------------------------------------------

/// The text under a key, nothing where there is none.
pub open spec fn text_at(v: JsonView, key: Seq<char>) -> Seq<char> {
    text_or(v.get(key), ""@)
}

/// The text under a key, nothing where there is none.
pub fn str_at(v: &Json, key: &str) -> (r: String)
    ensures
        r@ == text_at(v@, key@),
{
    String::from_str(text_of(v.get(key), ""))
}

/// Three texts.
pub type Triple = (String, String, String);

/// The elements of the list under a key.
pub open spec fn list_at(v: JsonView, key: Seq<char>) -> Seq<JsonView> {
    match v.get(key) {
        Some(JsonView::Array(list)) => list,
        _ => seq![],
    }
}

/// Do the rows hold the texts under these keys?
pub open spec fn are_rows(
    rows: Seq<Triple>,
    list: Seq<JsonView>,
    first: Seq<char>,
    second: Seq<char>,
    third: Seq<char>,
) -> bool {
    &&& rows.len() == list.len()
    &&& forall|i: int|
        0 <= i < rows.len() ==> {
            &&& (#[trigger] rows[i]).0@ == text_at(list[i], first)
            &&& rows[i].1@ == text_at(list[i], second)
            &&& rows[i].2@ == text_at(list[i], third)
        }
}

/// The texts under three keys of each element of a list.
pub fn rows_at(data: &Json, list: &str, first: &str, second: &str, third: &str) -> (r: Vec<Triple>)
    ensures
        are_rows(r@, list_at(data@, list@), first@, second@, third@),
{
    let mut out: Vec<Triple> = Vec::new();
    let ghost lv = list_at(data@, list@);
    match data.get(list) {
        Some(d) => match d.as_array() {
            Some(items) => {
                let n: usize = items.len();
                let mut i: usize = 0;
                while i < n
                    invariant
                        i <= n,
                        n == items@.len(),
                        lv.len() == n,
                        forall|j: int| 0 <= j < n ==> lv[j] == (#[trigger] items@[j])@,
                        out@.len() == i,
                        forall|j: int|
                            0 <= j < i ==> {
                                &&& (#[trigger] out@[j]).0@ == text_at(lv[j], first@)
                                &&& out@[j].1@ == text_at(lv[j], second@)
                                &&& out@[j].2@ == text_at(lv[j], third@)
                            },
                    decreases n - i,
                {
                    let item = &items[i];
                    out.push((str_at(item, first), str_at(item, second), str_at(item, third)));
                    i = i + 1;
                }
            },
            None => {},
        },
        None => {},
    }
    out
}

/// The weather as it is shown.
#[derive(Debug)]
pub struct WeatherShown {
    pub temp: String,
    pub units: String,
    pub desc: String,
    pub location: String,
    pub feels: String,
    pub humidity: String,
    pub wind: String,
    /// The day, the highest and the lowest temperature.
    pub days: Vec<Triple>,
}

/// Is this how the weather is shown?
pub open spec fn shows_weather(w: WeatherShown, data: JsonView) -> bool {
    &&& w.temp@ == text_at(data, "temp"@)
    &&& w.units@ == text_at(data, "units"@)
    &&& w.desc@ == text_at(data, "desc"@)
    &&& w.location@ == text_at(data, "location"@)
    &&& w.feels@ == text_at(data, "feels"@)
    &&& w.humidity@ == text_at(data, "humidity"@)
    &&& w.wind@ == text_at(data, "wind"@)
    &&& are_rows(w.days@, list_at(data, "days"@), "day"@, "max"@, "min"@)
}

/// The weather as it is shown.
pub fn weather_view(data: &Json) -> (r: WeatherShown)
    ensures
        shows_weather(r, data@),
{
    WeatherShown {
        temp: str_at(data, "temp"),
        units: str_at(data, "units"),
        desc: str_at(data, "desc"),
        location: str_at(data, "location"),
        feels: str_at(data, "feels"),
        humidity: str_at(data, "humidity"),
        wind: str_at(data, "wind"),
        days: rows_at(data, "days", "day", "max", "min"),
    }
}

/// A figure of the overview: a number or a text as it is, anything else a dash.
pub open spec fn figure(v: Option<JsonView>) -> Seq<char> {
    match v {
        Some(JsonView::Number(n)) => number_text(n),
        Some(JsonView::Str(s)) => s,
        _ => "—"@,
    }
}

/// A figure of the overview.
fn figure_at(data: &Json, key: &str) -> (r: String)
    ensures
        r@ == figure(data@.get(key@)),
{
    match data.get(key) {
        Some(Json::Number(n)) => n.text(),
        Some(Json::Str(s)) => s.clone(),
        _ => String::from_str("—"),
    }
}

/// The texts of a list of labelled figures.
pub open spec fn cell_views(v: Seq<(String, &'static str)>) -> Seq<(Seq<char>, Seq<char>)> {
    Seq::new(v.len(), |i: int| (v[i].0@, v[i].1@))
}

/// The figures of the overview with their labels.
pub open spec fn overview_cells(data: JsonView) -> Seq<(Seq<char>, Seq<char>)> {
    seq![
        (figure(data.get("online"@)), "Online"@),
        (figure(data.get("offline"@)), "Offline"@),
        (figure(data.get("avg_cpu"@)), "Avg CPU"@),
        (figure(data.get("containers"@)), "Containers"@),
    ]
}

/// The figures of the overview with their labels.
pub fn overview_view(data: &Json) -> (r: Vec<(String, &'static str)>)
    ensures
        cell_views(r@) == overview_cells(data@),
{
    let mut out: Vec<(String, &'static str)> = Vec::new();
    out.push((figure_at(data, "online"), "Online"));
    out.push((figure_at(data, "offline"), "Offline"));
    out.push((figure_at(data, "avg_cpu"), "Avg CPU"));
    out.push((figure_at(data, "containers"), "Containers"));
    assert(cell_views(out@) =~= overview_cells(data@));
    out
}

/// Is the container of a row running?
pub fn row_runs(row: &Triple) -> (r: bool)
    ensures
        r == (row.1@ == "running"@),
{
    same(row.1.as_str(), "running")
}

/// A number in two digits at least.
pub open spec fn two_digits(n: nat) -> Seq<char> {
    if n < 10 {
        seq!['0'] + decimal(n)
    } else {
        decimal(n)
    }
}

/// A number in two digits at least.
fn padded(n: u32) -> (r: String)
    ensures
        r@ == two_digits(n as nat),
{
    let digits = to_decimal(n as u128);
    if n < 10 {
        proof {
            reveal_strlit("0");
            assert("0"@ =~= seq!['0']);
        }
        concat2("0", digits.as_str())
    } else {
        digits
    }
}

/// The time of day as it is shown.
pub fn clock_text(hours: u32, minutes: u32, seconds: u32) -> (r: String)
    ensures
        r@ == two_digits(hours as nat) + ":"@ + two_digits(minutes as nat) + ":"@ + two_digits(
            seconds as nat,
        ),
{
    let mut out = padded(hours);
    out.append(":");
    out.append(padded(minutes).as_str());
    out.append(":");
    out.append(padded(seconds).as_str());
    out
}

/// The body of a widget.
#[derive(Debug)]
pub enum Body {
    /// What went wrong.
    Error(String),
    /// That there is nothing to show.
    Nothing(&'static str),
    Weather(WeatherShown),
    /// Figures with their labels.
    Overview(Vec<(String, &'static str)>),
    /// The name, the state and the machine.
    Containers(Vec<Triple>),
    /// The name and the address.
    Links(Vec<Triple>),
    /// The title, the link and the feed.
    Rss(Vec<Triple>),
    Clock,
}

/// Is this the body of a widget of that kind with these data?
pub open spec fn is_body(b: Body, kind: WidgetKind, data: JsonView) -> bool {
    let items = list_at(data, "items"@);
    match data.get("error"@) {
        Some(JsonView::Str(e)) => b matches Body::Error(m) && m@ == e,
        _ => match kind {
            WidgetKind::Weather => b matches Body::Weather(w) && shows_weather(w, data),
            WidgetKind::Overview => b matches Body::Overview(cells) && cell_views(cells@)
                == overview_cells(data),
            WidgetKind::Containers => if items.len() == 0 {
                b matches Body::Nothing(m) && m@ == "No containers to show"@
            } else {
                b matches Body::Containers(rows) && are_rows(
                    rows@,
                    items,
                    "name"@,
                    "status"@,
                    "device"@,
                )
            },
            WidgetKind::Links => b matches Body::Links(rows) && are_rows(
                rows@,
                items,
                "name"@,
                "url"@,
                "url"@,
            ),
            WidgetKind::Rss => if items.len() == 0 {
                b matches Body::Nothing(m) && m@ == "No items — check the feed URLs"@
            } else {
                b matches Body::Rss(rows) && are_rows(rows@, items, "title"@, "link"@, "feed"@)
            },
            WidgetKind::Clock => b is Clock,
        },
    }
}

/// The body of a widget. An error in its data is shown in place of anything else.
pub fn render_body(kind: WidgetKind, data: &Json) -> (r: Body)
    ensures
        is_body(r, kind, data@),
{
    match data.get("error") {
        Some(Json::Str(e)) => {
            return Body::Error(e.clone());
        },
        _ => {},
    }
    match kind {
        WidgetKind::Weather => Body::Weather(weather_view(data)),
        WidgetKind::Overview => Body::Overview(overview_view(data)),
        WidgetKind::Containers => {
            let rows = rows_at(data, "items", "name", "status", "device");
            if rows.len() == 0 {
                Body::Nothing("No containers to show")
            } else {
                Body::Containers(rows)
            }
        },
        WidgetKind::Links => Body::Links(rows_at(data, "items", "name", "url", "url")),
        WidgetKind::Rss => {
            let rows = rows_at(data, "items", "title", "link", "feed");
            if rows.len() == 0 {
                Body::Nothing("No items — check the feed URLs")
            } else {
                Body::Rss(rows)
            }
        },
        WidgetKind::Clock => Body::Clock,
    }
}

// ---------------------------------------------------------------------------
// The state of a card
// ---------------------------------------------------------------------------

/// The state of a widget's card.
#[derive(Debug)]
pub struct WidgetCard {
    pub data: Option<Json>,
    pub error: Option<String>,
    pub busy: bool,
    pub editor_open: bool,
}

impl WidgetCard {
    /// A card that has asked for nothing yet.
    pub fn new() -> (r: WidgetCard)
        ensures
            r == (WidgetCard { data: None, error: None, busy: false, editor_open: false }),
    {
        WidgetCard { data: None, error: None, busy: false, editor_open: false }
    }

    /// The data came, or the request for them failed: then what was shown stays.
    pub fn fetched(&mut self, result: Result<Json, String>)
        ensures
            *final(self) == match result {
                Ok(v) => WidgetCard { data: Some(v), error: None, ..*old(self) },
                Err(e) => WidgetCard { error: Some(e), ..*old(self) },
            },
    {
        match result {
            Ok(v) => {
                self.data = Some(v);
                self.error = None;
            },
            Err(e) => {
                self.error = Some(e);
            },
        }
    }

    /// A change is sent.
    pub fn started(&mut self)
        ensures
            *final(self) == (WidgetCard { busy: true, ..*old(self) }),
    {
        self.busy = true;
    }

    /// The settings were stored, or not: the editor closes only when they were.
    /// Says whether the configuration is to be read again.
    pub fn saved(&mut self, result: Result<(), String>) -> (r: bool)
        ensures
            r == (result is Ok),
            *final(self) == match result {
                Ok(()) => WidgetCard { editor_open: false, busy: false, ..*old(self) },
                Err(e) => WidgetCard { error: Some(e), busy: false, ..*old(self) },
            },
    {
        self.busy = false;
        match result {
            Ok(()) => {
                self.editor_open = false;
                true
            },
            Err(e) => {
                self.error = Some(e);
                false
            },
        }
    }

    /// The widget was removed, or not.
    pub fn removed(&mut self, result: Result<(), String>)
        ensures
            *final(self) == match result {
                Ok(()) => WidgetCard { busy: false, ..*old(self) },
                Err(e) => WidgetCard { error: Some(e), busy: false, ..*old(self) },
            },
    {
        match result {
            Ok(()) => {},
            Err(e) => {
                self.error = Some(e);
            },
        }
        self.busy = false;
    }

    /// The editor opens or closes.
    pub fn toggled(&mut self)
        ensures
            *final(self) == (WidgetCard { editor_open: !old(self).editor_open, ..*old(self) }),
    {
        self.editor_open = !self.editor_open;
    }

    /// Is the body shown? It is while there are data and the editor is closed.
    pub fn shows_body(&self) -> (r: bool)
        ensures
            r == (self.data is Some && !self.editor_open),
    {
        self.data.is_some() && !self.editor_open
    }
}

/// The state of the list of widget kinds to add.
#[derive(Debug, Clone, Copy)]
pub struct WidgetPicker {
    pub open: bool,
    /// The kind that is being added.
    pub busy: Option<WidgetKind>,
}

impl WidgetPicker {
    /// A widget of that kind is to be added. Says whether it is asked for: one at
    /// a time is.
    pub fn started(&mut self, kind: WidgetKind) -> (r: bool)
        ensures
            r == (old(self).busy is None),
            final(self).open == old(self).open,
            final(self).busy == if r {
                Some(kind)
            } else {
                old(self).busy
            },
    {
        if self.busy.is_some() {
            return false;
        }
        self.busy = Some(kind);
        true
    }

    /// The widget was added, or not: the list closes only when it was.
    pub fn finished(&mut self, added: bool)
        ensures
            final(self).open == (old(self).open && !added),
            final(self).busy is None,
    {
        if added {
            self.open = false;
        }
        self.busy = None;
    }
}

/// The panels of the dashboard.
#[derive(Debug, Clone, Copy, PartialEq, Eq, Structural)]
pub enum Tab {
    Dashboard,
    Devices,
    Containers,
}

impl Tab {
    /// Is there something to edit? Only the dashboard can be edited.
    pub fn edits(self, edit_mode: bool) -> (r: bool)
        ensures
            r == (edit_mode && self == Tab::Dashboard),
    {
        edit_mode && self == Tab::Dashboard
    }
}

// ---------------------------------------------------------------------------
// The editor
// ---------------------------------------------------------------------------

/// The settings with one of them set. What is no object is begun anew.
pub open spec fn with_setting(values: JsonView, key: Seq<char>, value: JsonView) -> JsonView {
    JsonView::Object(
        with_field(
            match values {
                JsonView::Object(m) => m,
                _ => seq![],
            },
            key,
            value,
        ),
    )
}

/// The settings with one of them set.
pub fn put(values: Json, key: &str, value: Json) -> (r: Json)
    ensures
        r@ == with_setting(values@, key@, value@),
{
    let ghost vv = values@;
    let mut m = match values {
        Json::Object(m) => {
            proof {
                crate::json::lemma_object_view(m);
            }
            m
        },
        _ => JsonMap::new(),
    };
    assert(m@ == match vv {
        JsonView::Object(o) => o,
        _ => seq![],
    });
    m.insert(key, value);
    Json::object(m)
}

/// The value that a field is edited from: the setting, else its default.
pub open spec fn current_view(f: FieldView, values: JsonView) -> JsonView {
    match values.get(f.key) {
        Some(v) => v,
        None => f.default,
    }
}

/// The value that a field is edited from.
pub fn current(f: &Field, values: &Json) -> (r: Json)
    ensures
        r@ == current_view(f@, values@),
{
    match values.get(f.key) {
        Some(v) => v.dup(),
        None => f.default.dup(),
    }
}

/// What is filled in for a field.
#[derive(Debug)]
pub enum Filled {
    Checked(bool),
    Text(String),
}

/// Is this what is filled in for a field?
pub open spec fn fills(r: Filled, f: FieldView, values: JsonView) -> bool {
    let now = current_view(f, values);
    match f.kind {
        FieldKind::Checkbox => r matches Filled::Checked(b) && b == match now {
            JsonView::Bool(on) => on,
            _ => false,
        },
        FieldKind::Number => r matches Filled::Text(t) && t@ == signed_decimal(
            match now.as_i64() {
                Some(n) => n as int,
                None => 0,
            },
        ),
        _ => r matches Filled::Text(t) && t@ == text_or(Some(now), ""@),
    }
}

/// What is filled in for a field before it is edited.
pub fn filled(f: &Field, values: &Json) -> (r: Filled)
    ensures
        fills(r, f@, values@),
{
    let now = current(f, values);
    match f.kind {
        FieldKind::Checkbox => match now.as_bool() {
            Some(b) => Filled::Checked(b),
            None => Filled::Checked(false),
        },
        FieldKind::Number => {
            let n: i64 = match now.as_i64() {
                Some(n) => n,
                None => 0,
            };
            Filled::Text(to_signed_decimal(n))
        },
        _ => Filled::Text(String::from_str(text_of(Some(&now), ""))),
    }
}

/// The least value that a number field takes.
pub open spec fn least(f: FieldView) -> i64 {
    match f.min {
        Some(n) => n,
        None => 0,
    }
}

/// The greatest value that a number field takes.
pub open spec fn greatest(f: FieldView) -> i64 {
    match f.max {
        Some(n) => n,
        None => 100,
    }
}

/// The setting that was typed into a number field: between the bounds, and the
/// least one where it is no number.
pub fn typed_number(f: &Field, typed: &str) -> (r: Json)
    requires
        least(f@) <= greatest(f@),
    ensures
        r@ == int_view(
            clamped(
                match parse_signed(trimmed(typed@), i64::MIN as int, i64::MAX as int) {
                    Some(n) => n,
                    None => least(f@) as int,
                },
                least(f@) as int,
                greatest(f@) as int,
            ) as i64,
        ),
{
    let min: i64 = match f.min {
        Some(n) => n,
        None => 0,
    };
    let max: i64 = match f.max {
        Some(n) => n,
        None => 100,
    };
    let bare = trim(typed);
    let n: i64 = match parse_i64(bare.as_str()) {
        Some(n) => n,
        None => min,
    };
    Json::whole(
        if n < min {
            min
        } else if n > max {
            max
        } else {
            n
        },
    )
}

/// The name of the input of a field.
pub fn input_id(f: &Field) -> (r: String)
    ensures
        r@ == "wf-"@ + f.key@,
{
    concat2("wf-", f.key)
}

// ---------------------------------------------------------------------------
// Laws of the cards
// ---------------------------------------------------------------------------

/// Texts and lists are read from under their keys; what is missing, or is of
/// another type, is empty.
pub proof fn texts_and_lists_are_read_from_under_their_keys(
    v: JsonView,
    key: Seq<char>,
    s: Seq<char>,
    list: Seq<JsonView>,
)
    ensures
        v.get(key) == Some(JsonView::Str(s)) ==> text_at(v, key) == s,
        v.get(key) == Some(JsonView::Array(list)) ==> list_at(v, key) == list && text_at(v, key)
            == ""@,
        v.get(key) is None || v.get(key) == Some(JsonView::Null) ==> text_at(v, key) == ""@
            && list_at(v, key).len() == 0,
{
}

/// The weather is shown as it was handed out, each part from under its own name,
/// and the days one by one with their name, their highest and their lowest
/// temperature.
pub proof fn the_weather_is_shown_as_handed_out(
    w: WeatherShown,
    data: JsonView,
    days: Seq<JsonView>,
    i: int,
)
    requires
        shows_weather(w, data),
        data.get("days"@) == Some(JsonView::Array(days)),
    ensures
        data.get("temp"@) matches Some(JsonView::Str(s)) ==> w.temp@ == s,
        data.get("units"@) matches Some(JsonView::Str(s)) ==> w.units@ == s,
        data.get("desc"@) matches Some(JsonView::Str(s)) ==> w.desc@ == s,
        data.get("location"@) matches Some(JsonView::Str(s)) ==> w.location@ == s,
        data.get("feels"@) matches Some(JsonView::Str(s)) ==> w.feels@ == s,
        data.get("humidity"@) matches Some(JsonView::Str(s)) ==> w.humidity@ == s,
        data.get("wind"@) matches Some(JsonView::Str(s)) ==> w.wind@ == s,
        w.days@.len() == days.len(),
        0 <= i < days.len() ==> {
            &&& days[i].get("day"@) matches Some(JsonView::Str(s)) ==> w.days@[i].0@ == s
            &&& days[i].get("max"@) matches Some(JsonView::Str(s)) ==> w.days@[i].1@ == s
            &&& days[i].get("min"@) matches Some(JsonView::Str(s)) ==> w.days@[i].2@ == s
        },
{
}

/// A figure is the number or the text itself, and a dash where there is neither.
pub proof fn a_figure_is_shown_as_it_is(n: u64, s: Seq<char>, b: bool)
    ensures
        parse_unsigned(
            figure(Some(JsonView::Number(crate::json::NumberView::PosInt(n)))),
            u64::MAX as nat,
        ) == Some(n as nat),
        figure(Some(JsonView::Str(s))) == s,
        figure(None) == "—"@,
        figure(Some(JsonView::Null)) == "—"@,
        figure(Some(JsonView::Bool(b))) == "—"@,
{
    decimal_reads_back(n as nat, u64::MAX as nat);
}

/// The overview shows four figures, each with its own label.
pub proof fn the_overview_shows_four_figures(data: JsonView)
    ensures
        overview_cells(data).len() == 4,
        overview_cells(data)[0] == (figure(data.get("online"@)), "Online"@),
        overview_cells(data)[1] == (figure(data.get("offline"@)), "Offline"@),
        overview_cells(data)[2] == (figure(data.get("avg_cpu"@)), "Avg CPU"@),
        overview_cells(data)[3] == (figure(data.get("containers"@)), "Containers"@),
{
}

/// A number in two digits reads as the number, and below a hundred it has two.
pub proof fn two_digits_read_back(n: nat)
    requires
        n < 100,
    ensures
        two_digits(n).len() == 2,
        parse_unsigned(two_digits(n), 99) == Some(n),
{
    reveal_with_fuel(decimal, 3);
    decimal_reads_back(n, 99);
    lemma_decimal(n);
    if n < 10 {
        let s = two_digits(n);
        assert(decimal(n).len() == 1);
        assert(s[0] == '0' && s[1] == decimal(n)[0]);
        assert(crate::text::is_digit(decimal(n)[0]));
        assert(crate::numbers::all_digits(s));
        assert(s.drop_last() =~= seq!['0']);
        assert(seq!['0'].drop_last() =~= Seq::<char>::empty());
        reveal_with_fuel(crate::numbers::digits_value, 3);
        assert(s.last() == decimal(n).last());
        assert(decimal(n).drop_last() =~= Seq::<char>::empty());
    } else {
        assert(decimal(n).len() == 2);
    }
}

/// A widget with an error shows the error and nothing else; another one shows what
/// its kind does, and where it has a list and that is empty, it says so.
pub proof fn a_body_shows_its_data(
    b: Body,
    kind: WidgetKind,
    data: JsonView,
    items: Seq<JsonView>,
    i: int,
)
    requires
        is_body(b, kind, data),
        data.get("items"@) == Some(JsonView::Array(items)),
    ensures
        data.get("error"@) matches Some(JsonView::Str(e)) ==> (b matches Body::Error(m) && m@ == e),
        data.get("error"@) is None ==> {
            &&& kind is Weather ==> (b matches Body::Weather(w) && shows_weather(w, data))
            &&& kind is Overview ==> (b matches Body::Overview(c) && cell_views(c@)
                == overview_cells(data))
            &&& kind is Clock ==> b is Clock
            &&& kind is Containers && items.len() == 0 ==> (b matches Body::Nothing(m) && m@
                == "No containers to show"@)
            &&& kind is Rss && items.len() == 0 ==> (b matches Body::Nothing(m) && m@
                == "No items — check the feed URLs"@)
            &&& kind is Containers && 0 <= i < items.len() ==> (b matches Body::Containers(r)
                && r@.len() == items.len() && r@[i].0@ == text_at(items[i], "name"@) && r@[i].1@
                == text_at(items[i], "status"@) && r@[i].2@ == text_at(items[i], "device"@))
            &&& kind is Links && 0 <= i < items.len() ==> (b matches Body::Links(r) && r@.len()
                == items.len() && r@[i].0@ == text_at(items[i], "name"@) && r@[i].1@ == text_at(
                items[i],
                "url"@,
            ))
            &&& kind is Rss && 0 <= i < items.len() ==> (b matches Body::Rss(r) && r@.len()
                == items.len() && r@[i].0@ == text_at(items[i], "title"@) && r@[i].1@ == text_at(
                items[i],
                "link"@,
            ) && r@[i].2@ == text_at(items[i], "feed"@))
        },
{
}

/// Setting one of the settings changes that one alone.
pub proof fn one_setting_is_set(
    m: Fields,
    key: Seq<char>,
    value: JsonView,
    other: Seq<char>,
    values: JsonView,
)
    ensures
        with_setting(JsonView::Object(m), key, value).get(key) == Some(value),
        other != key ==> with_setting(JsonView::Object(m), key, value).get(other) == field(m, other),
        values !is Object ==> with_setting(values, key, value).get(key) == Some(value) && (other
            != key ==> with_setting(values, key, value).get(other) is None),
{
    broadcast use crate::json::reading_behind_setting;

}

/// A field is edited from its setting, and from its default where there is none:
/// a checkbox is ticked or not, a number is written in digits, and a text stands
/// as it is.
pub proof fn a_field_is_filled_from_its_setting(
    r: Filled,
    f: FieldView,
    values: JsonView,
    n: i64,
    s: Seq<char>,
    on: bool,
)
    requires
        fills(r, f, values),
    ensures
        values.get(f.key) is None ==> current_view(f, values) == f.default,
        values.get(f.key) matches Some(v) ==> current_view(f, values) == v,
        f.kind is Checkbox && current_view(f, values) == JsonView::Bool(on) ==> (
        r matches Filled::Checked(b) && b == on),
        f.kind is Number && current_view(f, values) == int_view(n) ==> (r matches Filled::Text(t)
            && parse_signed(t@, i64::MIN as int, i64::MAX as int) == Some(n as int)),
        !(f.kind is Checkbox) && !(f.kind is Number) && current_view(f, values) == JsonView::Str(s)
            ==> (r matches Filled::Text(t) && t@ == s),
{
    crate::numbers::signed_decimal_reads_back(n as int, i64::MIN as int, i64::MAX as int);
}

/// A number field takes what lies between its bounds, and between zero and a
/// hundred where it has none.
pub proof fn the_bounds_of_a_number_field(f: FieldView, lo: i64, hi: i64)
    ensures
        f.min == Some(lo) ==> least(f) == lo,
        f.min is None ==> least(f) == 0,
        f.max == Some(hi) ==> greatest(f) == hi,
        f.max is None ==> greatest(f) == 100,
{
}

/// A setting of the wrong type is edited from nothing: a box that is not ticked, a
/// zero, an empty text.
pub proof fn a_wrong_setting_is_edited_from_nothing(r: Filled, f: FieldView, values: JsonView)
    requires
        fills(r, f, values),
        current_view(f, values) is Null,
    ensures
        f.kind is Checkbox ==> r == Filled::Checked(false),
        f.kind is Number ==> (r matches Filled::Text(t) && t@ == seq!['0']),
        !(f.kind is Checkbox) && !(f.kind is Number) ==> (r matches Filled::Text(t) && t@.len()
            == 0),
{
    reveal_strlit("");
}

/// Every element of a list makes a row of its three texts, in its order.
pub proof fn every_element_makes_a_row(
    rows: Seq<Triple>,
    list: Seq<JsonView>,
    first: Seq<char>,
    second: Seq<char>,
    third: Seq<char>,
    i: int,
)
    requires
        are_rows(rows, list, first, second, third),
        0 <= i < list.len(),
    ensures
        rows.len() == list.len(),
        list[i].get(first) matches Some(JsonView::Str(s)) ==> rows[i].0@ == s,
        list[i].get(second) matches Some(JsonView::Str(s)) ==> rows[i].1@ == s,
        list[i].get(third) matches Some(JsonView::Str(s)) ==> rows[i].2@ == s,
{
}

/// The texts of labelled figures are those of the figures and of their labels, in
/// their order.
pub proof fn labelled_figures_keep_their_labels(v: Seq<(String, &'static str)>, i: int)
    requires
        0 <= i < v.len(),
    ensures
        cell_views(v).len() == v.len(),
        cell_views(v)[i].0 == v[i].0@,
        cell_views(v)[i].1 == v[i].1@,
{
}

} // verus!
