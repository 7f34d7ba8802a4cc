//! The weather: what to ask for, and what the answer means.

use vstd::prelude::*;
use vstd::utf8::*;

use crate::json::{
    field, head, head_of, json_views, member, member_of, opt_json, text_of, text_or, with_field,
    Fields, Json, JsonMap, JsonView,
};
use crate::numbers::{
    all_digits, decimal, lemma_decimal, parse_unsigned, parse_up_to, to_decimal,
};
use crate::text::{
    blank, concat3, cut_last, find_last, is_blank, is_digit, lemma_find_last, lemma_split_head,
    lemma_split_plain, same, split, split_char, views,
};
use crate::urls::{decoded, encoded, encoding_can_be_undone, urlencode};
use crate::widgets::{clamped, number_setting, text_setting, Widget};

verus! {

// ---------------------------------------------------------------------------
// The request
// ---------------------------------------------------------------------------

/// For how many seconds a weather report is reused.
pub const WEATHER_TTL: u64 = 600;

/// What a weather widget asks for.
#[derive(Debug)]
pub struct WeatherRequest {
    pub location: String,
    pub days: usize,
    pub units: String,
    /// What the answer is kept under. The location is part of it, so another
    /// place is never shown the weather of this one.
    pub key: String,
    pub url: String,
}

/// The place that a widget is about, Berlin where none is set.
pub open spec fn place_of(w: Widget) -> Seq<char> {
    let s = text_setting(w.settings@, "location"@);
    if is_blank(s) {
        "Berlin"@
    } else {
        s
    }
}

/// For how many days a widget shows the forecast.
pub open spec fn days_of(w: Widget) -> int {
    clamped(number_setting(w.settings@, "days"@) as int, 0, 5)
}

/// Is this what the widget asks for? The address is made of the place that is
/// set, and of nothing else.
pub open spec fn asks(q: WeatherRequest, w: Widget) -> bool {
    &&& q.location@ == place_of(w)
    &&& q.days == days_of(w)
    &&& q.units@ == text_setting(w.settings@, "units"@)
    &&& q.key@ == weather_key(place_of(w), days_of(w) as nat)
    &&& q.url@ == "https://wttr.in/"@ + encoded(encode_utf8(place_of(w)), false) + "?format=j1"@
}

/// What a weather widget asks for.
pub fn weather_request(w: &Widget) -> (r: WeatherRequest)
    ensures
        asks(r, *w),
{
    let set = w.get_str("location");
    let location = if blank(set.as_str()) {
        String::from_str("Berlin")
    } else {
        set
    };
    let n: i64 = w.get_i64("days");
    let days: usize = if n < 0 {
        0
    } else if n > 5 {
        5
    } else {
        n as usize
    };
    let count = to_decimal(days as u128);
    let mut key = concat3("weather:", location.as_str(), ":");
    key.append(count.as_str());
    let segment = urlencode(location.as_str());
    let url = concat3("https://wttr.in/", segment.as_str(), "?format=j1");
    WeatherRequest { location, days, units: w.get_str("units"), key, url }
}

/// What the answer to a request for a place and a number of days is kept under.
pub open spec fn weather_key(place: Seq<char>, days: nat) -> Seq<char> {
    "weather:"@ + place + ":"@ + decimal(days)
}

/// Another place, or another number of days, is kept under another key.
pub proof fn weather_keys_differ(a: Seq<char>, m: nat, b: Seq<char>, n: nat)
    requires
        a != b || m != n,
    ensures
        weather_key(a, m) != weather_key(b, n),
{
    if weather_key(a, m) == weather_key(b, n) {
        reveal_strlit("weather:");
        reveal_strlit(":");
        lemma_decimal(m);
        lemma_decimal(n);
        let x = "weather:"@ + a;
        let y = "weather:"@ + b;
        lemma_last_colon(x, decimal(m));
        lemma_last_colon(y, decimal(n));
        assert(weather_key(a, m) =~= x + seq![':'] + decimal(m));
        assert(weather_key(b, n) =~= y + seq![':'] + decimal(n));
        assert(x =~= y);
        assert(a =~= x.skip(8));
        assert(b =~= y.skip(8));
    }
}

/// The last colon in front of digits is where the digits begin.
proof fn lemma_last_colon(x: Seq<char>, digits: Seq<char>)
    requires
        all_digits(digits),
    ensures
        cut_last(x + seq![':'] + digits, ':') == Some((x, digits)),
{
    let s = x + seq![':'] + digits;
    lemma_find_last(s, ':');
    let i = find_last(s, ':');
    assert(s[x.len() as int] == ':');
    if i > x.len() {
        assert(is_digit(digits[i - x.len() - 1]));
    }
    assert(i == x.len());
    assert(s.take(i) =~= x);
    assert(s.skip(i + 1) =~= digits);
}

// ---------------------------------------------------------------------------
// The days of the week
// ---------------------------------------------------------------------------

/// The short name of a day of the week; 0 is Sunday.
pub open spec fn day_name(i: int) -> Seq<char> {
    if i == 0 {
        "Sun"@
    } else if i == 1 {
        "Mon"@
    } else if i == 2 {
        "Tue"@
    } else if i == 3 {
        "Wed"@
    } else if i == 4 {
        "Thu"@
    } else if i == 5 {
        "Fri"@
    } else {
        "Sat"@
    }
}

/// Is this a leap year?
pub open spec fn is_leap(y: int) -> bool {
    y % 4 == 0 && (y % 100 != 0 || y % 400 == 0)
}

/// How many days a month has.
pub open spec fn month_length(y: int, m: int) -> int {
    if m == 2 {
        if is_leap(y) {
            29
        } else {
            28
        }
    } else if m == 4 || m == 6 || m == 9 || m == 11 {
        30
    } else {
        31
    }
}

/// The date after a date.
pub open spec fn next_date(y: int, m: int, d: int) -> (int, int, int) {
    if d < month_length(y, m) {
        (y, m, d + 1)
    } else if m < 12 {
        (y, m + 1, 1)
    } else {
        (y + 1, 1, 1)
    }
}

/// What the years add to the day of the week.
#[verifier::opaque]
pub open spec fn year_part(year: int) -> int {
    let j = year / 100;
    let k = year % 100;
    k + k / 4 + j / 4 + 5 * j
}

/// What the months add to the day of the week. January and February count as
/// months 13 and 14 of the year before.
#[verifier::opaque]
pub open spec fn month_part(m: int) -> int {
    13 * (if m < 3 {
        m + 13
    } else {
        m + 1
    }) / 5
}

/// The day of the week of a date, by Zeller's congruence; 0 is Sunday.
pub open spec fn weekday(y: int, m: int, d: int) -> int {
    (d + month_part(m) + year_part(
        if m < 3 {
            y - 1
        } else {
            y
        },
    ) + 6) % 7
}

/// Is there such a date?
pub open spec fn is_date(y: int, m: int, d: int) -> bool {
    1 <= m <= 12 && 1 <= d <= month_length(y, m)
}

/// The name of the day of a date such as `2026-02-03`. What is no date is kept
/// as it is.
pub open spec fn label_of_date(date: Seq<char>) -> Seq<char> {
    let p = split(date, '-');
    if p.len() != 3 {
        date
    } else {
        match (
            parse_unsigned(p[0], i32::MAX as nat),
            parse_unsigned(p[1], u32::MAX as nat),
            parse_unsigned(p[2], u32::MAX as nat),
        ) {
            (Some(y), Some(m), Some(d)) => if is_date(y as int, m as int, d as int) {
                day_name(weekday(y as int, m as int, d as int))
            } else {
                date
            },
            _ => date,
        }
    }
}

/// How many days a month has.
fn days_in(y: u64, m: u64) -> (r: u64)
    ensures
        r == month_length(y as int, m as int),
{
    if m == 2 {
        if y % 4 == 0 && (y % 100 != 0 || y % 400 == 0) {
            29
        } else {
            28
        }
    } else if m == 4 || m == 6 || m == 9 || m == 11 {
        30
    } else {
        31
    }
}

/// Four centuries are a whole number of weeks.
proof fn lemma_four_centuries(year: int)
    ensures
        year_part(year + 400) == year_part(year) + 21,
{
    reveal(year_part);
    assert((year + 400) / 100 == year / 100 + 4);
    assert((year + 400) % 100 == year % 100);
    assert((year / 100 + 4) / 4 == (year / 100) / 4 + 1);
}

/// The day of the week, counted four centuries later.
proof fn lemma_counted(y: int, m: int, d: int, month: int, year: int)
    requires
        month == if m < 3 {
            m + 13
        } else {
            m + 1
        },
        year == if m < 3 {
            y + 399
        } else {
            y + 400
        },
    ensures
        ({
            let j = year / 100;
            let k = year % 100;
            (d + 13 * month / 5 + (k + k / 4 + j / 4 + 5 * j) + 6) % 7 == weekday(y, m, d)
        }),
{
    lemma_four_centuries(year - 400);
    assert(month_part(m) == 13 * month / 5) by {
        reveal(month_part);
    }
    assert(year_part(year) == year % 100 + (year % 100) / 4 + (year / 100) / 4 + 5 * (year / 100))
        by {
        reveal(year_part);
    }
    let plain = d + month_part(m) + year_part(year - 400) + 6;
    assert((plain + 21) % 7 == plain % 7);
}

/// The day of the week of a date; 0 is Sunday.
fn find_weekday(y: u64, m: u64, d: u64) -> (r: u64)
    requires
        y <= i32::MAX,
        is_date(y as int, m as int, d as int),
    ensures
        r == weekday(y as int, m as int, d as int),
        r < 7,
{
    // Counted four centuries later, so that no year is negative.
    let year: u64 = if m < 3 {
        y + 399
    } else {
        y + 400
    };
    let j: u64 = year / 100;
    let k: u64 = year % 100;
    let month: u64 = if m < 3 {
        m + 13
    } else {
        m + 1
    };
    let total: u64 = d + 13 * month / 5 + (k + k / 4 + j / 4 + 5 * j) + 6;
    proof {
        lemma_counted(y as int, m as int, d as int, month as int, year as int);
    }
    total % 7
}

/// The name of the day of a date such as `2026-02-03`.
pub fn day_label(date: &str) -> (r: String)
    ensures
        r@ == label_of_date(date@),
{
    let p = split_char(date, '-');
    let ghost pv = split(date@, '-');
    assert(pv == views(p@));
    if p.len() != 3 {
        return String::from_str(date);
    }
    assert(pv[0] == p@[0]@ && pv[1] == p@[1]@ && pv[2] == p@[2]@);
    match (
        parse_up_to(p[0].as_str(), 0x7fff_ffff),
        parse_up_to(p[1].as_str(), 0xffff_ffff),
        parse_up_to(p[2].as_str(), 0xffff_ffff),
    ) {
        (Some(y), Some(m), Some(d)) => {
            if m < 1 || m > 12 || d < 1 || d > days_in(y, m) {
                return String::from_str(date);
            }
            let i: u64 = find_weekday(y, m, d);
            if i == 0 {
                String::from_str("Sun")
            } else if i == 1 {
                String::from_str("Mon")
            } else if i == 2 {
                String::from_str("Tue")
            } else if i == 3 {
                String::from_str("Wed")
            } else if i == 4 {
                String::from_str("Thu")
            } else if i == 5 {
                String::from_str("Fri")
            } else {
                String::from_str("Sat")
            }
        },
        _ => String::from_str(date),
    }
}

/// A year more adds a day, and a leap year two.
proof fn lemma_next_year(y: int)
    ensures
        (year_part(y) - year_part(y - 1) - 1 - if is_leap(y) {
            1int
        } else {
            0int
        }) % 7 == 0,
{
    reveal(year_part);
    let a = y - 1;
    if y % 100 == 0 {
        assert(a / 100 == y / 100 - 1);
        assert(a % 100 == 99);
        assert(y % 4 == 0);
        let j = y / 100;
        assert((y % 400 == 0) == (j % 4 == 0));
        assert(j / 4 - (j - 1) / 4 == if j % 4 == 0 {
            1int
        } else {
            0int
        });
    } else {
        assert(a / 100 == y / 100);
        assert(a % 100 == y % 100 - 1);
        let k = y % 100;
        assert((y % 4 == 0) == (k % 4 == 0));
        assert(k / 4 - (k - 1) / 4 == if k % 4 == 0 {
            1int
        } else {
            0int
        });
    }
}

/// What the months add, each counted out.
proof fn lemma_months()
    ensures
        month_part(1) == 36,
        month_part(2) == 39,
        month_part(3) == 10,
        month_part(4) == 13,
        month_part(5) == 15,
        month_part(6) == 18,
        month_part(7) == 20,
        month_part(8) == 23,
        month_part(9) == 26,
        month_part(10) == 28,
        month_part(11) == 31,
        month_part(12) == 33,
{
    reveal(month_part);
}

/// Days that lie one apart, up to whole weeks, have labels one apart.
proof fn lemma_one_apart(a: int, b: int)
    requires
        (b - a - 1) % 7 == 0,
    ensures
        (b + 6) % 7 == ((a + 6) % 7 + 1) % 7,
{
}

/// The labels follow the calendar: the day after a date has the next label,
/// across the ends of months, years and Februaries of leap years.
pub proof fn labels_follow_the_calendar(y: int, m: int, d: int)
    requires
        is_date(y, m, d),
    ensures
        ({
            let n = next_date(y, m, d);
            weekday(n.0, n.1, n.2) == (weekday(y, m, d) + 1) % 7
        }),
{
    let n = next_date(y, m, d);
    lemma_next_year(y);
    lemma_months();
    let before = d + month_part(m) + year_part(if m < 3 {
        y - 1
    } else {
        y
    });
    let after = n.2 + month_part(n.1) + year_part(if n.1 < 3 {
        n.0 - 1
    } else {
        n.0
    });
    assert((after - before - 1) % 7 == 0) by {
        if d == month_length(y, m) && m == 2 {
            assert(after - before - 1 == year_part(y) - year_part(y - 1) - 1 - (if is_leap(y) {
                1int
            } else {
                0int
            }) - 56);
        }
    }
    lemma_one_apart(before, after);
}

/// The labels start right: the third of February 2026 is a Tuesday.
pub proof fn labels_have_an_anchor()
    ensures
        day_name(weekday(2026, 2, 3)) == "Tue"@,
{
    lemma_months();
    reveal(year_part);
}

// ---------------------------------------------------------------------------
// The report
// ---------------------------------------------------------------------------

/// The description of a weather condition.
pub open spec fn desc_of(v: Option<JsonView>) -> Seq<char> {
    text_or(member(head(member(v, "weatherDesc"@)), "value"@), ""@)
}

/// The hour in the middle of a day.
pub open spec fn midday(day: JsonView) -> Option<JsonView> {
    match day.get("hourly"@) {
        Some(JsonView::Array(h)) => if h.len() > 0 {
            Some(h[h.len() as int / 2])
        } else {
            None
        },
        _ => None,
    }
}

/// A day of the forecast in the shape that is shown.
pub open spec fn day_view(day: JsonView) -> JsonView {
    let m = with_field(
        seq![],
        "day"@,
        JsonView::Str(label_of_date(text_or(day.get("date"@), ""@))),
    );
    let m = with_field(m, "max"@, JsonView::Str(text_or(day.get("maxtempC"@), "--"@)));
    let m = with_field(m, "min"@, JsonView::Str(text_or(day.get("mintempC"@), "--"@)));
    JsonView::Object(with_field(m, "desc"@, JsonView::Str(desc_of(midday(day)))))
}

/// The days of a report.
pub open spec fn report_days(raw: JsonView) -> Seq<JsonView> {
    match raw.get("weather"@) {
        Some(JsonView::Array(v)) => v,
        _ => seq![],
    }
}

/// The forecast for no more than so many days.
pub open spec fn forecast(raw: JsonView, days: int) -> Seq<JsonView> {
    let all = report_days(raw);
    let n = if all.len() < days {
        all.len() as int
    } else {
        days
    };
    all.take(n).map_values(|d: JsonView| day_view(d))
}

/// The name of the place that a report is about.
pub open spec fn area_of(raw: JsonView) -> Seq<char> {
    text_or(
        member(
            head(member(head(raw.get("nearest_area"@)), "areaName"@)),
            "value"@,
        ),
        ""@,
    )
}

/// A report in the shape that is shown. What is missing reads as `--`.
pub open spec fn weather_view(raw: JsonView, days: int) -> JsonView {
    let cur = head(raw.get("current_condition"@));
    let area = area_of(raw);
    let m = with_field(
        seq![],
        "location"@,
        if area.len() == 0 {
            JsonView::Null
        } else {
            JsonView::Str(area)
        },
    );
    let m = with_field(m, "temp"@, JsonView::Str(text_or(member(cur, "temp_C"@), "--"@)));
    let m = with_field(m, "feels"@, JsonView::Str(text_or(member(cur, "FeelsLikeC"@), "--"@)));
    let m = with_field(m, "desc"@, JsonView::Str(desc_of(cur)));
    let m = with_field(m, "humidity"@, JsonView::Str(text_or(member(cur, "humidity"@), "--"@)));
    let m = with_field(m, "wind"@, JsonView::Str(text_or(member(cur, "windspeedKmph"@), "--"@)));
    JsonView::Object(with_field(m, "days"@, JsonView::Array(forecast(raw, days))))
}

/// The description of a weather condition.
fn find_desc<'a>(v: Option<&'a Json>) -> (r: &'a str)
    ensures
        r@ == desc_of(opt_json(v)),
{
    text_of(member_of(head_of(member_of(v, "weatherDesc")), "value"), "")
}

/// A day of the forecast in the shape that is shown.
fn show_day(day: &Json) -> (r: Json)
    ensures
        r@ == day_view(day@),
{
    let mid: Option<&Json> = match day.get("hourly") {
        Some(h) => match h.as_array() {
            Some(v) => if v.len() > 0 {
                Some(&v[v.len() / 2])
            } else {
                None
            },
            None => None,
        },
        None => None,
    };
    assert(opt_json(mid) == midday(day@));
    let label = day_label(text_of(day.get("date"), ""));
    let mut m = JsonMap::new();
    m.insert("day", Json::text(label.as_str()));
    m.insert("max", Json::text(text_of(day.get("maxtempC"), "--")));
    m.insert("min", Json::text(text_of(day.get("mintempC"), "--")));
    m.insert("desc", Json::text(find_desc(mid)));
    Json::object(m)
}

/// Turns a report into the shape that is shown.
pub fn parse_weather(raw: &Json, days: usize) -> (r: Json)
    ensures
        r@ == weather_view(raw@, days as int),
{
    let cur = head_of(raw.get("current_condition"));
    let area = text_of(
        member_of(head_of(member_of(head_of(raw.get("nearest_area")), "areaName")), "value"),
        "",
    );
    let desc = find_desc(cur);
    let mut rows: Vec<Json> = Vec::new();
    let ghost all = report_days(raw@);
    match raw.get("weather") {
        Some(w) => match w.as_array() {
            Some(list) => {
                assert(all == json_views(list@));
                let mut i: usize = 0;
                while i < list.len() && i < days
                    invariant
                        i <= list@.len(),
                        i <= days,
                        rows@.len() == i,
                        all == json_views(list@),
                        forall|j: int| 0 <= j < i ==> (#[trigger] rows@[j])@ == day_view(all[j]),
                    decreases list.len() - i,
                {
                    rows.push(show_day(&list[i]));
                    i = i + 1;
                }
            },
            None => {},
        },
        None => {},
    }
    assert(json_views(rows@) =~= forecast(raw@, days as int));
    let mut m = JsonMap::new();
    m.insert(
        "location",
        if area.is_empty() {
            Json::Null
        } else {
            Json::text(area)
        },
    );
    m.insert("temp", Json::text(text_of(member_of(cur, "temp_C"), "--")));
    m.insert("feels", Json::text(text_of(member_of(cur, "FeelsLikeC"), "--")));
    m.insert("desc", Json::text(desc));
    m.insert("humidity", Json::text(text_of(member_of(cur, "humidity"), "--")));
    m.insert("wind", Json::text(text_of(member_of(cur, "windspeedKmph"), "--")));
    m.insert("days", Json::array(rows));
    Json::object(m)
}

// ---------------------------------------------------------------------------
// Units
// ---------------------------------------------------------------------------

/// The texts of a table.
pub open spec fn table_view(t: Seq<(String, String)>) -> Seq<(Seq<char>, Seq<char>)> {
    Seq::new(t.len(), |i: int| (t[i].0@, t[i].1@))
}

/// What the table has for a text, or the text itself.
pub open spec fn looked_up(table: Seq<(Seq<char>, Seq<char>)>, s: Seq<char>) -> Seq<char>
    decreases table.len(),
{
    if table.len() == 0 {
        s
    } else if table[0].0 == s {
        table[0].1
    } else {
        looked_up(table.drop_first(), s)
    }
}

/// The members with the text under a key converted, where there is one.
pub open spec fn converted(
    m: Fields,
    key: Seq<char>,
    table: Seq<(Seq<char>, Seq<char>)>,
) -> Fields {
    match field(m, key) {
        Some(JsonView::Str(s)) => with_field(m, key, JsonView::Str(looked_up(table, s))),
        _ => m,
    }
}

/// A day with its temperatures converted.
pub open spec fn converted_day(d: JsonView, table: Seq<(Seq<char>, Seq<char>)>) -> JsonView {
    match d {
        JsonView::Object(m) => JsonView::Object(
            converted(converted(m, "max"@, table), "min"@, table),
        ),
        _ => d,
    }
}

/// The members with the temperatures of the days converted.
pub open spec fn with_days(m: Fields, table: Seq<(Seq<char>, Seq<char>)>) -> Fields {
    match field(m, "days"@) {
        Some(JsonView::Array(v)) => with_field(
            m,
            "days"@,
            JsonView::Array(v.map_values(|d: JsonView| converted_day(d, table))),
        ),
        _ => m,
    }
}

/// A report in the asked units: in Fahrenheit every temperature is converted, and
/// the units are noted either way. What is no report is kept.
pub open spec fn in_units(
    data: JsonView,
    units: Seq<char>,
    table: Seq<(Seq<char>, Seq<char>)>,
) -> JsonView {
    match data {
        JsonView::Object(m) => if units == "f"@ {
            let m = converted(converted(m, "temp"@, table), "feels"@, table);
            JsonView::Object(with_field(with_days(m, table), "units"@, JsonView::Str("F"@)))
        } else {
            JsonView::Object(with_field(m, "units"@, JsonView::Str("C"@)))
        },
        _ => data,
    }
}

/// What the table has for a text, or the text itself.
fn look_up(table: &Vec<(String, String)>, s: &str) -> (r: String)
    ensures
        r@ == looked_up(table_view(table@), s@),
{
    let ghost tv = table_view(table@);
    let mut i: usize = 0;
    assert(tv.skip(0) =~= tv);
    while i < table.len()
        invariant
            i <= table@.len(),
            tv == table_view(table@),
            looked_up(tv, s@) == looked_up(tv.skip(i as int), s@),
        decreases table.len() - i,
    {
        assert(tv.skip(i as int)[0] == tv[i as int]);
        assert(tv.skip(i as int).drop_first() =~= tv.skip(i + 1));
        if same(table[i].0.as_str(), s) {
            return table[i].1.clone();
        }
        i = i + 1;
    }
    String::from_str(s)
}

/// Converts the text under a key, where there is one.
fn convert(m: &mut JsonMap, key: &str, table: &Vec<(String, String)>)
    ensures
        final(m)@ == converted(old(m)@, key@, table_view(table@)),
{
    let new: Option<String> = match m.get(key) {
        Some(v) => match v.as_str() {
            Some(s) => Some(look_up(table, s)),
            None => None,
        },
        None => None,
    };
    if let Some(s) = new {
        m.insert(key, Json::text(s.as_str()));
    }
}

/// A day with its temperatures converted.
fn convert_day(d: &Json, table: &Vec<(String, String)>) -> (r: Json)
    ensures
        r@ == converted_day(d@, table_view(table@)),
{
    match d.as_object() {
        Some(m) => {
            let mut m = m.dup();
            convert(&mut m, "max", table);
            convert(&mut m, "min", table);
            Json::object(m)
        },
        None => d.dup(),
    }
}

/// Brings a report into the asked units. `table` says what each temperature that
/// [`temperatures`] names is in Fahrenheit.
pub fn apply_units(data: Json, units: &str, table: &Vec<(String, String)>) -> (r: Json)
    ensures
        r@ == in_units(data@, units@, table_view(table@)),
{
    let ghost tv = table_view(table@);
    let mut m = match data.as_object() {
        Some(m) => m.dup(),
        None => {
            return data;
        },
    };
    if same(units, "f") {
        convert(&mut m, "temp", table);
        convert(&mut m, "feels", table);
        let ghost before = m@;
        let days: Option<Vec<Json>> = match m.get("days") {
            Some(v) => match v.as_array() {
                Some(list) => {
                    let ghost lv = json_views(list@);
                    let mut out: Vec<Json> = Vec::new();
                    let mut i: usize = 0;
                    while i < list.len()
                        invariant
                            i <= list@.len(),
                            out@.len() == i,
                            lv == json_views(list@),
                            tv == table_view(table@),
                            forall|j: int|
                                0 <= j < i ==> (#[trigger] out@[j])@ == converted_day(lv[j], tv),
                        decreases list.len() - i,
                    {
                        out.push(convert_day(&list[i], table));
                        i = i + 1;
                    }
                    assert(json_views(out@) =~= lv.map_values(
                        |d: JsonView| converted_day(d, tv),
                    ));
                    Some(out)
                },
                None => None,
            },
            None => None,
        };
        if let Some(v) = days {
            m.insert("days", Json::array(v));
        }
        assert(m@ == with_days(before, tv));
        m.insert("units", Json::text("F"));
    } else {
        m.insert("units", Json::text("C"));
    }
    Json::object(m)
}

/// The temperatures that a report holds, as they are written: what a table for
/// [`apply_units`] must cover.
pub open spec fn holds_temperature(data: JsonView, s: Seq<char>) -> bool {
    ||| data.get("temp"@) == Some(JsonView::Str(s))
    ||| data.get("feels"@) == Some(JsonView::Str(s))
    ||| exists|i: int| #[trigger] day_holds(data, i, s)
}

/// Is this a temperature of that day of a report?
pub open spec fn day_holds(data: JsonView, i: int, s: Seq<char>) -> bool {
    data.get("days"@) matches Some(JsonView::Array(v)) && 0 <= i < v.len() && (v[i].get("max"@)
        == Some(JsonView::Str(s)) || v[i].get("min"@) == Some(JsonView::Str(s)))
}

/// Adds the text under a key, where there is one.
fn gather(v: &Json, key: &str, out: &mut Vec<String>)
    ensures
        views(final(out)@) == match v@.get(key@) {
            Some(JsonView::Str(s)) => views(old(out)@).push(s),
            _ => views(old(out)@),
        },
{
    let ghost before = views(out@);
    if let Some(j) = v.get(key) {
        if let Some(s) = j.as_str() {
            out.push(String::from_str(s));
            assert(views(out@) =~= before.push(s@));
        }
    }
}

/// The temperatures that a report holds.
pub fn temperatures(data: &Json) -> (r: Vec<String>)
    ensures
        forall|s: Seq<char>| views(r@).contains(s) <==> #[trigger] holds_temperature(data@, s),
{
    let mut out: Vec<String> = Vec::new();
    assert(views(out@) =~= Seq::<Seq<char>>::empty());
    gather(data, "temp", &mut out);
    gather(data, "feels", &mut out);
    let ghost first = views(out@);
    assert forall|s: Seq<char>| first.contains(s) <==> data@.get("temp"@) == Some(JsonView::Str(s))
        || data@.get("feels"@) == Some(JsonView::Str(s)) by {
        if data@.get("temp"@) == Some(JsonView::Str(s)) {
            assert(first[0] == s);
        } else if data@.get("feels"@) == Some(JsonView::Str(s)) {
            assert(first[first.len() - 1] == s);
        }
    }
    if let Some(d) = data.get("days") {
        if let Some(list) = d.as_array() {
            let ghost lv = json_views(list@);
            let mut i: usize = 0;
            while i < list.len()
                invariant
                    i <= list@.len(),
                    lv == json_views(list@),
                    data@.get("days"@) == Some(JsonView::Array(lv)),
                    forall|s: Seq<char>|
                        #[trigger] views(out@).contains(s) <==> first.contains(s) || exists|k: int|
                            0 <= k < i && #[trigger] day_holds(data@, k, s),
                decreases list.len() - i,
            {
                let ghost a = views(out@);
                gather(&list[i], "max", &mut out);
                let ghost b = views(out@);
                gather(&list[i], "min", &mut out);
                let ghost c = views(out@);
                proof {
                    let day = lv[i as int];
                    assert(day == list@[i as int]@);
                    assert forall|s: Seq<char>|
                        #[trigger] c.contains(s) <==> first.contains(s) || exists|k: int|
                            0 <= k < i + 1 && #[trigger] day_holds(data@, k, s) by {
                        lemma_pushed(a, b, day.get("max"@), s);
                        lemma_pushed(b, c, day.get("min"@), s);
                        assert(day_holds(data@, i as int, s) <==> day.get("max"@) == Some(
                            JsonView::Str(s),
                        ) || day.get("min"@) == Some(JsonView::Str(s)));
                        assert(a.contains(s) <==> first.contains(s) || exists|k: int|
                            0 <= k < i && #[trigger] day_holds(data@, k, s));
                    }
                }
                i = i + 1;
            }
            proof {
                assert forall|s: Seq<char>| views(out@).contains(s) <==> #[trigger] holds_temperature(
                    data@,
                    s,
                ) by {
                    if exists|k: int| #[trigger] day_holds(data@, k, s) {
                        let k = choose|k: int| #[trigger] day_holds(data@, k, s);
                        assert(0 <= k < i);
                    }
                }
            }
        }
    }
    out
}

/// What a list holds after a text was added to it, or not.
proof fn lemma_pushed(before: Seq<Seq<char>>, after: Seq<Seq<char>>, v: Option<JsonView>, s: Seq<char>)
    requires
        after == match v {
            Some(JsonView::Str(t)) => before.push(t),
            _ => before,
        },
    ensures
        after.contains(s) <==> before.contains(s) || v == Some(JsonView::Str(s)),
{
    if let Some(JsonView::Str(t)) = v {
        assert(after[after.len() - 1] == t);
        if before.contains(s) {
            let k = choose|k: int| 0 <= k < before.len() && before[k] == s;
            assert(after[k] == s);
        }
        if after.contains(s) {
            let k = choose|k: int| 0 <= k < after.len() && after[k] == s;
            if k < before.len() {
                assert(before[k] == s);
            }
        }
    }
}

// ---------------------------------------------------------------------------
// Laws of the report
// ---------------------------------------------------------------------------

/// A widget asks for the place that is set, Berlin where none is, and for the
/// number of days that is set, but never for fewer than none or more than five.
/// The address holds the place as one segment that decodes to it.
pub proof fn a_widget_asks_for_its_place(q: WeatherRequest, w: Widget)
    requires
        asks(q, w),
    ensures
        is_blank(text_setting(w.settings@, "location"@)) ==> q.location@ == "Berlin"@,
        !is_blank(text_setting(w.settings@, "location"@)) ==> q.location@ == text_setting(
            w.settings@,
            "location"@,
        ),
        q.units@ == text_setting(w.settings@, "units"@),
        0 <= number_setting(w.settings@, "days"@) <= 5 ==> q.days == number_setting(
            w.settings@,
            "days"@,
        ),
        number_setting(w.settings@, "days"@) < 0 ==> q.days == 0,
        number_setting(w.settings@, "days"@) > 5 ==> q.days == 5,
        exists|segment: Seq<char>|
            q.url@ == "https://wttr.in/"@ + segment + "?format=j1"@ && #[trigger] decoded(segment)
                == Some(encode_utf8(q.location@)),
{
    let segment = encoded(encode_utf8(place_of(w)), false);
    encoding_can_be_undone(encode_utf8(place_of(w)), false);
    assert(decoded(segment) == Some(encode_utf8(q.location@)));
}

/// A report is kept under its place and its number of days, and for ten minutes.
pub proof fn a_report_is_kept_under_its_place(place: Seq<char>, days: nat)
    ensures
        weather_key(place, days) == "weather:"@ + place + ":"@ + decimal(days),
        WEATHER_TTL == 600,
{
}

/// The days of the week have their names, in their order.
pub proof fn the_days_have_their_names()
    ensures
        day_name(0) == "Sun"@ && day_name(1) == "Mon"@ && day_name(2) == "Tue"@,
        day_name(3) == "Wed"@ && day_name(4) == "Thu"@,
        day_name(5) == "Fri"@ && day_name(6) == "Sat"@,
{
}

/// Every day of the calendar is a date: all months have twenty-eight days, all
/// but February thirty, seven of them thirty-one, and February twenty-nine where
/// the year divides by four, unless it divides by a hundred and not by four
/// hundred. There are no others.
pub proof fn every_calendar_day_is_a_date(y: int, m: int, d: int)
    ensures
        is_date(y, m, d) <==> 1 <= m <= 12 && 1 <= d <= 31 && (d <= 28 || m != 2 && d <= 30 || (m
            == 1 || m == 3 || m == 5 || m == 7 || m == 8 || m == 10 || m == 12) || m == 2 && d == 29
            && (y % 400 == 0 || y % 4 == 0 && y % 100 != 0)),
{
}

/// A date written as year, month and day with dashes between them has the name of
/// its day, however many zeros lead; every other text is kept.
pub proof fn a_date_reads_as_its_day(a: Seq<char>, b: Seq<char>, c: Seq<char>, y: nat, m: nat, d: nat)
    requires
        all_digits(a) && all_digits(b) && all_digits(c),
        parse_unsigned(a, i32::MAX as nat) == Some(y),
        parse_unsigned(b, u32::MAX as nat) == Some(m),
        parse_unsigned(c, u32::MAX as nat) == Some(d),
    ensures
        ({
            let text = a + seq!['-'] + (b + seq!['-'] + c);
            label_of_date(text) == if is_date(y as int, m as int, d as int) {
                day_name(weekday(y as int, m as int, d as int))
            } else {
                text
            }
        }),
{
    lemma_digits_hold_no_dash(a);
    lemma_digits_hold_no_dash(b);
    lemma_digits_hold_no_dash(c);
    let text = a + seq!['-'] + (b + seq!['-'] + c);
    lemma_split_head(a, '-', b + seq!['-'] + c);
    lemma_split_head(b, '-', c);
    lemma_split_plain(c, '-');
    let p = split(text, '-');
    assert(p.len() == 3 && p[0] == a && p[1] == b && p[2] == c);
}

/// What is not written in three parts is no date, and is kept.
pub proof fn what_is_no_date_is_kept(text: Seq<char>)
    ensures
        split(text, '-').len() != 3 ==> label_of_date(text) == text,
        ({
            let p = split(text, '-');
            p.len() == 3 && (parse_unsigned(p[0], i32::MAX as nat) is None || parse_unsigned(
                p[1],
                u32::MAX as nat,
            ) is None || parse_unsigned(p[2], u32::MAX as nat) is None)
        }) ==> label_of_date(text) == text,
{
}

/// A row of digits holds no dash.
proof fn lemma_digits_hold_no_dash(s: Seq<char>)
    requires
        all_digits(s),
    ensures
        !s.contains('-'),
{
    if s.contains('-') {
        let i = choose|i: int| 0 <= i < s.len() && s[i] == '-';
        assert(is_digit(s[i]));
    }
}

/// The description of a condition is the text of the first entry under
/// `weatherDesc`.
pub proof fn a_description_is_the_first_one(
    condition: JsonView,
    list: Seq<JsonView>,
    text: Seq<char>,
)
    requires
        condition.get("weatherDesc"@) == Some(JsonView::Array(list)),
        list.len() > 0,
        list[0].get("value"@) == Some(JsonView::Str(text)),
    ensures
        desc_of(Some(condition)) == text,
        desc_of(None) == ""@,
{
}

/// Every day of the forecast is shown as the report has that very day, in the
/// order of the report, for as many days as were asked for and as there are: the
/// name of its date, its highest and its lowest temperature, and the description
/// of the hour in its middle.
pub proof fn every_day_is_shown_as_reported(
    raw: JsonView,
    list: Seq<JsonView>,
    days: int,
    i: int,
    date: Seq<char>,
    max: Seq<char>,
    min: Seq<char>,
    hours: Seq<JsonView>,
)
    requires
        raw.get("weather"@) == Some(JsonView::Array(list)),
        0 <= i < days,
        i < list.len(),
        list[i].get("date"@) == Some(JsonView::Str(date)),
        list[i].get("maxtempC"@) == Some(JsonView::Str(max)),
        list[i].get("mintempC"@) == Some(JsonView::Str(min)),
        list[i].get("hourly"@) == Some(JsonView::Array(hours)),
    ensures
        weather_view(raw, days).get("days"@) matches Some(JsonView::Array(v)) && {
            &&& v.len() == if list.len() < days {
                list.len() as int
            } else {
                days
            }
            &&& v[i].get("day"@) == Some(JsonView::Str(label_of_date(date)))
            &&& v[i].get("max"@) == Some(JsonView::Str(max))
            &&& v[i].get("min"@) == Some(JsonView::Str(min))
            &&& hours.len() > 0 ==> v[i].get("desc"@) == Some(
                JsonView::Str(desc_of(Some(hours[hours.len() as int / 2]))),
            )
            &&& hours.len() == 0 ==> v[i].get("desc"@) == Some(JsonView::Str(""@))
        },
{
    broadcast use crate::json::reading_behind_setting;

    reveal_strlit("weather");
    reveal_strlit("date");
    reveal_strlit("maxtempC");
    reveal_strlit("mintempC");
    reveal_strlit("hourly");
    reveal_strlit("days");
    reveal_strlit("day");
    reveal_strlit("max");
    reveal_strlit("min");
    reveal_strlit("desc");
    reveal_strlit("");
    reveal_strlit("location");
    reveal_strlit("temp");
    reveal_strlit("feels");
    reveal_strlit("humidity");
    reveal_strlit("wind");
    assert("date"@[2] == 't');
    assert("days"@[2] == 'y');
    assert("date"@[1] == 'a');
    assert("desc"@[1] == 'e');
    assert("maxtempC"@[1] == 'a');
    assert("mintempC"@[1] == 'i');
    assert("days"@[1] == 'a');
    assert("max"@[1] == 'a');
    assert("min"@[1] == 'i');
    let v = forecast(raw, days);
    assert(v[i] == day_view(list[i]));
}

/// What the report leaves out of a day reads as `--`, or as nothing where it is
/// the date or the description.
pub proof fn what_a_day_lacks_is_marked(raw: JsonView, list: Seq<JsonView>, days: int, i: int)
    requires
        raw.get("weather"@) == Some(JsonView::Array(list)),
        0 <= i < days,
        i < list.len(),
    ensures
        weather_view(raw, days).get("days"@) matches Some(JsonView::Array(v)) && {
            &&& list[i].get("date"@) is None ==> v[i].get("day"@) == Some(
                JsonView::Str(label_of_date(""@)),
            )
            &&& list[i].get("maxtempC"@) is None ==> v[i].get("max"@) == Some(JsonView::Str("--"@))
            &&& list[i].get("mintempC"@) is None ==> v[i].get("min"@) == Some(JsonView::Str("--"@))
            &&& list[i].get("hourly"@) is None ==> v[i].get("desc"@) == Some(JsonView::Str(""@))
        },
{
    broadcast use crate::json::reading_behind_setting;

    reveal_strlit("weather");
    reveal_strlit("days");
    reveal_strlit("date");
    reveal_strlit("day");
    reveal_strlit("");
    reveal_strlit("maxtempC");
    reveal_strlit("max");
    reveal_strlit("--");
    reveal_strlit("mintempC");
    reveal_strlit("min");
    reveal_strlit("hourly");
    reveal_strlit("desc");
    reveal_strlit("location");
    reveal_strlit("temp");
    reveal_strlit("feels");
    reveal_strlit("humidity");
    reveal_strlit("wind");
    assert("days"@[2] == 'y');
    assert("date"@[2] == 't');
    assert("days"@[1] == 'a');
    assert("desc"@[1] == 'e');
    assert("date"@[1] == 'a');
    assert("maxtempC"@[1] == 'a');
    assert("mintempC"@[1] == 'i');
    assert("max"@[1] == 'a');
    assert("min"@[1] == 'i');
    let v = forecast(raw, days);
    assert(v[i] == day_view(list[i]));
}

/// A report without days has an empty forecast.
pub proof fn without_days_there_is_no_forecast(raw: JsonView, days: int)
    requires
        days >= 0,
        raw.get("weather"@) is None || raw.get("weather"@)->0 !is Array,
    ensures
        weather_view(raw, days).get("days"@) == Some(JsonView::Array(seq![])),
{
    broadcast use crate::json::reading_behind_setting;

    reveal_strlit("weather");
    reveal_strlit("days");
    reveal_strlit("location");
    reveal_strlit("temp");
    reveal_strlit("feels");
    reveal_strlit("desc");
    reveal_strlit("humidity");
    reveal_strlit("wind");
    assert(forecast(raw, days) =~= Seq::<JsonView>::empty());
}

/// What is shown of the present weather is what the report says of its first
/// current condition, each figure under its own name; what is missing reads as
/// `--`.
pub proof fn the_present_weather_is_shown_as_reported(
    raw: JsonView,
    list: Seq<JsonView>,
    days: int,
)
    requires
        raw.get("current_condition"@) == Some(JsonView::Array(list)),
        list.len() > 0,
    ensures
        ({
            let v = weather_view(raw, days);
            let c = list[0];
            &&& v.get("temp"@) == Some(JsonView::Str(text_or(c.get("temp_C"@), "--"@)))
            &&& v.get("feels"@) == Some(JsonView::Str(text_or(c.get("FeelsLikeC"@), "--"@)))
            &&& v.get("desc"@) == Some(JsonView::Str(desc_of(Some(c))))
            &&& v.get("humidity"@) == Some(JsonView::Str(text_or(c.get("humidity"@), "--"@)))
            &&& v.get("wind"@) == Some(JsonView::Str(text_or(c.get("windspeedKmph"@), "--"@)))
        }),
{
    broadcast use crate::json::reading_behind_setting;

    reveal_strlit("current_condition");
    reveal_strlit("temp");
    reveal_strlit("temp_C");
    reveal_strlit("--");
    reveal_strlit("feels");
    reveal_strlit("FeelsLikeC");
    reveal_strlit("desc");
    reveal_strlit("humidity");
    reveal_strlit("wind");
    reveal_strlit("windspeedKmph");
    reveal_strlit("location");
    reveal_strlit("days");
    assert("desc"@[1] == 'e');
    assert("days"@[1] == 'a');
}

/// A report that says nothing of the present weather shows `--` for every figure.
pub proof fn what_is_not_reported_is_marked(raw: JsonView, days: int)
    requires
        raw.get("current_condition"@) is None,
    ensures
        ({
            let v = weather_view(raw, days);
            &&& v.get("temp"@) == Some(JsonView::Str("--"@))
            &&& v.get("feels"@) == Some(JsonView::Str("--"@))
            &&& v.get("desc"@) == Some(JsonView::Str(""@))
            &&& v.get("humidity"@) == Some(JsonView::Str("--"@))
            &&& v.get("wind"@) == Some(JsonView::Str("--"@))
        }),
{
    broadcast use crate::json::reading_behind_setting;

    reveal_strlit("current_condition");
    reveal_strlit("temp");
    reveal_strlit("--");
    reveal_strlit("feels");
    reveal_strlit("desc");
    reveal_strlit("");
    reveal_strlit("humidity");
    reveal_strlit("wind");
    reveal_strlit("location");
    reveal_strlit("days");
    assert("desc"@[1] == 'e');
    assert("days"@[1] == 'a');
}

/// The place of a report is the first name of its nearest area; without one there
/// is none.
pub proof fn the_place_is_the_nearest_area(
    raw: JsonView,
    areas: Seq<JsonView>,
    names: Seq<JsonView>,
    name: Seq<char>,
    days: int,
)
    ensures
        raw.get("nearest_area"@) == Some(JsonView::Array(areas)) && areas.len() > 0
            && areas[0].get("areaName"@) == Some(JsonView::Array(names)) && names.len() > 0
            && names[0].get("value"@) == Some(JsonView::Str(name)) && name.len() > 0
            ==> weather_view(raw, days).get("location"@) == Some(JsonView::Str(name)),
        raw.get("nearest_area"@) is None ==> weather_view(raw, days).get("location"@) == Some(
            JsonView::Null,
        ),
{
    broadcast use crate::json::reading_behind_setting;

    reveal_strlit("nearest_area");
    reveal_strlit("areaName");
    reveal_strlit("value");
    reveal_strlit("location");
    reveal_strlit("");
    reveal_strlit("temp");
    reveal_strlit("feels");
    reveal_strlit("desc");
    reveal_strlit("humidity");
    reveal_strlit("wind");
    reveal_strlit("days");
    reveal_strlit("");
}

// ---------------------------------------------------------------------------
// Laws of the units
// ---------------------------------------------------------------------------

/// The texts of a table are those of its entries: what is looked up, and what it
/// stands for.
pub proof fn a_table_keeps_its_entries(t: Seq<(String, String)>, i: int)
    requires
        0 <= i < t.len(),
    ensures
        table_view(t).len() == t.len(),
        table_view(t)[i].0 == t[i].0@,
        table_view(t)[i].1 == t[i].1@,
{
}

/// A table is searched from its beginning: the first entry for a text holds, and
/// a text that has none stands for itself.
pub proof fn the_first_entry_holds(
    table: Seq<(Seq<char>, Seq<char>)>,
    k: int,
    s: Seq<char>,
)
    requires
        0 <= k <= table.len(),
        forall|j: int| 0 <= j < k ==> (#[trigger] table[j]).0 != s,
        k < table.len() ==> table[k].0 == s,
    ensures
        looked_up(table, s) == if k < table.len() {
            table[k].1
        } else {
            s
        },
    decreases table.len(),
{
    if table.len() > 0 && k > 0 {
        let rest = table.drop_first();
        assert(table[0].0 != s);
        assert forall|j: int| 0 <= j < k - 1 implies (#[trigger] rest[j]).0 != s by {
            assert(rest[j] == table[j + 1]);
        }
        the_first_entry_holds(rest, k - 1, s);
    }
}

/// Celsius leaves a report as it is, but for the note of the units.
pub proof fn celsius_changes_nothing(
    m: Fields,
    units: Seq<char>,
    table: Seq<(Seq<char>, Seq<char>)>,
    key: Seq<char>,
)
    requires
        units != "f"@,
    ensures
        in_units(JsonView::Object(m), units, table).get("units"@) == Some(JsonView::Str("C"@)),
        key != "units"@ ==> in_units(JsonView::Object(m), units, table).get(key) == field(m, key),
{
    broadcast use crate::json::reading_behind_setting;

    reveal_strlit("f");
    reveal_strlit("units");
    reveal_strlit("C");
}

/// Converting a member converts that one, and leaves every other.
proof fn lemma_converted(
    m: Fields,
    key: Seq<char>,
    table: Seq<(Seq<char>, Seq<char>)>,
    other: Seq<char>,
)
    ensures
        other != key ==> field(converted(m, key, table), other) == field(m, other),
        field(m, key) matches Some(JsonView::Str(s)) ==> field(converted(m, key, table), key)
            == Some(JsonView::Str(looked_up(table, s))),
{
    broadcast use crate::json::reading_behind_setting;

}

/// Fahrenheit converts the temperature and what it feels like, and the highest
/// and the lowest temperature of every day, each by the table. Nothing else of
/// the report changes, but for the note of the units.
pub proof fn fahrenheit_converts_the_temperatures(
    m: Fields,
    table: Seq<(Seq<char>, Seq<char>)>,
    key: Seq<char>,
    s: Seq<char>,
)
    ensures
        ({
            let v = in_units(JsonView::Object(m), "f"@, table);
            &&& v.get("units"@) == Some(JsonView::Str("F"@))
            &&& (key == "temp"@ || key == "feels"@) && field(m, key) == Some(JsonView::Str(s))
                ==> v.get(key) == Some(JsonView::Str(looked_up(table, s)))
            &&& key != "temp"@ && key != "feels"@ && key != "days"@ && key != "units"@ ==> v.get(
                key,
            ) == field(m, key)
        }),
{
    broadcast use crate::json::reading_behind_setting;

    reveal_strlit("f");
    reveal_strlit("units");
    reveal_strlit("F");
    reveal_strlit("temp");
    reveal_strlit("feels");
    reveal_strlit("days");
    assert("f"@[0] == 'f');
    assert("F"@[0] == 'F');
    assert("units"@[0] == 'u');
    assert("feels"@[0] == 'f');
    assert("temp"@[0] == 't');
    assert("days"@[0] == 'd');
    let one = converted(m, "temp"@, table);
    let two = converted(one, "feels"@, table);
    lemma_converted(m, "temp"@, table, key);
    lemma_converted(one, "feels"@, table, key);
    let three = with_days(two, table);
    assert(key != "days"@ ==> field(three, key) == field(two, key));
    assert(in_units(JsonView::Object(m), "f"@, table) == JsonView::Object(
        with_field(three, "units"@, JsonView::Str("F"@)),
    ));
}

/// In Fahrenheit every day of the forecast keeps its place, its name and its
/// description, and has its temperatures converted.
pub proof fn fahrenheit_converts_every_day(
    m: Fields,
    list: Seq<JsonView>,
    table: Seq<(Seq<char>, Seq<char>)>,
    i: int,
    day: Fields,
    key: Seq<char>,
    s: Seq<char>,
)
    requires
        field(m, "days"@) == Some(JsonView::Array(list)),
        0 <= i < list.len(),
        list[i] == JsonView::Object(day),
    ensures
        in_units(JsonView::Object(m), "f"@, table).get("days"@) matches Some(JsonView::Array(v))
            && {
            &&& v.len() == list.len()
            &&& (key == "max"@ || key == "min"@) && field(day, key) == Some(JsonView::Str(s))
                ==> v[i].get(key) == Some(JsonView::Str(looked_up(table, s)))
            &&& key != "max"@ && key != "min"@ ==> v[i].get(key) == field(day, key)
        },
{
    broadcast use crate::json::reading_behind_setting;

    reveal_strlit("days");
    reveal_strlit("f");
    reveal_strlit("max");
    reveal_strlit("min");
    reveal_strlit("temp");
    reveal_strlit("feels");
    reveal_strlit("units");
    reveal_strlit("F");
    assert("days"@[0] == 'd');
    assert("temp"@[0] == 't');
    assert("f"@[0] == 'f');
    assert("F"@[0] == 'F');
    assert("max"@[1] == 'a');
    assert("min"@[1] == 'i');
    assert("feels"@[0] == 'f');
    assert("units"@[0] == 'u');
    let one = converted(m, "temp"@, table);
    let two = converted(one, "feels"@, table);
    lemma_converted(m, "temp"@, table, "days"@);
    lemma_converted(one, "feels"@, table, "days"@);
    let three = with_days(two, table);
    let v = list.map_values(|d: JsonView| converted_day(d, table));
    assert(field(three, "days"@) == Some(JsonView::Array(v)));
    assert(in_units(JsonView::Object(m), "f"@, table) == JsonView::Object(
        with_field(three, "units"@, JsonView::Str("F"@)),
    ));
    assert(v[i] == converted_day(list[i], table));
    lemma_converted(day, "max"@, table, key);
    lemma_converted(converted(day, "max"@, table), "min"@, table, key);
    lemma_converted(day, "max"@, table, "min"@);
}

/// The temperatures of a report are the present one, what it feels like, and the
/// highest and the lowest of every day; there are no others.
pub proof fn every_temperature_is_named(data: JsonView, days: Seq<JsonView>, i: int, s: Seq<char>)
    requires
        data.get("days"@) == Some(JsonView::Array(days)),
    ensures
        data.get("temp"@) == Some(JsonView::Str(s)) ==> holds_temperature(data, s),
        data.get("feels"@) == Some(JsonView::Str(s)) ==> holds_temperature(data, s),
        0 <= i < days.len() && (days[i].get("max"@) == Some(JsonView::Str(s)) || days[i].get("min"@)
            == Some(JsonView::Str(s))) ==> holds_temperature(data, s),
        holds_temperature(data, s) ==> data.get("temp"@) == Some(JsonView::Str(s)) || data.get(
            "feels"@,
        ) == Some(JsonView::Str(s)) || exists|k: int|
            0 <= k < days.len() && ((#[trigger] days[k]).get("max"@) == Some(JsonView::Str(s))
                || days[k].get("min"@) == Some(JsonView::Str(s))),
{
    if 0 <= i < days.len() && (days[i].get("max"@) == Some(JsonView::Str(s)) || days[i].get("min"@)
        == Some(JsonView::Str(s))) {
        assert(day_holds(data, i, s));
    }
    if holds_temperature(data, s) && data.get("temp"@) != Some(JsonView::Str(s)) && data.get(
        "feels"@,
    ) != Some(JsonView::Str(s)) {
        let k = choose|k: int| #[trigger] day_holds(data, k, s);
        assert(0 <= k < days.len() && (days[k].get("max"@) == Some(JsonView::Str(s)) || days[k].get(
            "min"@,
        ) == Some(JsonView::Str(s))));
    }
}

} // verus!
