//! Data for the other widgets.

use vstd::prelude::*;

use crate::clock::secs_now;
use crate::feed::{item_json, item_views, FeedItem, ItemView};
use crate::json::{
    int_view, json_views, member, member_of, text_of, text_or, with_field, Fields, Json, JsonMap,
    JsonView, Number, NumberView,
};
use crate::listing::first;
use crate::numbers::{decimal, lemma_decimal, to_decimal};
use crate::order::{
    arranged, arranged_follows_the_keys, arranged_is_a_permutation, arranged_is_in_order,
    key_before, key_views, lemma_arranged_maps, sort_by_key, sorted_keys, text_before, Key,
};
use crate::text::{
    begins, concat3, cut, join, join_strings, lemma_split_head, lemma_split_plain, lines, same,
    split_lines, split_once, starts_with, trim, trimmed, views,
};
use crate::weather::{asks, weather_request, WeatherRequest};
use crate::widgets::{clamped, flag_setting, number_setting, text_setting, Widget, WidgetKind};

verus! {

/// The object with one member.
pub open spec fn single(key: Seq<char>, value: JsonView) -> JsonView {
    JsonView::Object(with_field(seq![], key, value))
}

/// The object with one member.
fn object_with(key: &str, value: Json) -> (r: Json)
    ensures
        r@ == single(key@, value@),
{
    let mut m = JsonMap::new();
    m.insert(key, value);
    Json::object(m)
}

/// The number `n`, kept between the bounds.
fn clamp(n: i64, lo: i64, hi: i64) -> (r: i64)
    requires
        lo <= hi,
    ensures
        r == clamped(n as int, lo as int, hi as int),
        lo <= r <= hi,
{
    if n < lo {
        lo
    } else if n > hi {
        hi
    } else {
        n
    }
}

// ---------------------------------------------------------------------------
// The overview
// ---------------------------------------------------------------------------

/// The machines in a status report.
pub open spec fn machines(devices: JsonView) -> Seq<JsonView> {
    match devices {
        JsonView::Array(v) => v,
        _ => seq![],
    }
}

/// Is the machine said to be online?
pub open spec fn is_online(d: JsonView) -> bool {
    match d.get("online"@) {
        Some(v) => v.as_bool() == Some(true),
        None => false,
    }
}

/// How many machines are online.
pub open spec fn online_count(list: Seq<JsonView>) -> nat
    decreases list.len(),
{
    if list.len() == 0 {
        0
    } else {
        online_count(list.drop_last()) + if is_online(list.last()) {
            1nat
        } else {
            0nat
        }
    }
}

/// How many containers a machine reports.
pub open spec fn containers_on(d: JsonView) -> nat {
    match d.get("containers"@) {
        Some(JsonView::Object(m)) => m.len(),
        _ => 0,
    }
}

/// How many containers there are in all.
pub open spec fn container_count(list: Seq<JsonView>) -> nat
    decreases list.len(),
{
    if list.len() == 0 {
        0
    } else {
        container_count(list.drop_last()) + containers_on(list.last())
    }
}

/// The load that a machine reports.
pub open spec fn load_of(d: JsonView) -> Option<NumberView> {
    match member(d.get("stats"@), "cpu"@) {
        Some(JsonView::Number(n)) => Some(n),
        _ => None,
    }
}

/// The loads that machines report.
pub open spec fn loads(list: Seq<JsonView>) -> Seq<NumberView>
    decreases list.len(),
{
    if list.len() == 0 {
        seq![]
    } else {
        match load_of(list.last()) {
            Some(n) => loads(list.drop_last()).push(n),
            None => loads(list.drop_last()),
        }
    }
}

/// As much of a count as a `u64` holds.
pub open spec fn counted(n: nat) -> JsonView {
    JsonView::Number(
        NumberView::PosInt(
            if n <= u64::MAX {
                n as u64
            } else {
                u64::MAX
            },
        ),
    )
}

/// The overview of some machines. Without any reported load there is no average.
pub open spec fn overview_view(list: Seq<JsonView>, average: i64) -> JsonView {
    let online = online_count(list);
    let m = with_field(seq![], "devices"@, counted(list.len()));
    let m = with_field(m, "online"@, counted(online));
    let m = with_field(m, "offline"@, counted((list.len() - online) as nat));
    let m = with_field(
        m,
        "avg_cpu"@,
        if loads(list).len() == 0 {
            JsonView::Null
        } else {
            int_view(average)
        },
    );
    JsonView::Object(with_field(m, "containers"@, counted(container_count(list))))
}

/// The views of a list of numbers.
pub open spec fn number_views(v: Seq<Number>) -> Seq<NumberView> {
    Seq::new(v.len(), |i: int| v[i]@)
}

/// No more machines are online than there are.
pub proof fn online_is_at_most_all(list: Seq<JsonView>)
    ensures
        online_count(list) <= list.len(),
    decreases list.len(),
{
    if list.len() > 0 {
        online_is_at_most_all(list.drop_last());
    }
}

/// The loads that the machines of a status report give.
pub fn cpu_loads(devices: &Json) -> (r: Vec<Number>)
    ensures
        number_views(r@) == loads(machines(devices@)),
{
    let mut out: Vec<Number> = Vec::new();
    assert(number_views(out@) =~= Seq::<NumberView>::empty());
    if let Some(list) = devices.as_array() {
        let ghost lv = json_views(list@);
        let mut i: usize = 0;
        assert(lv.take(0) =~= Seq::<JsonView>::empty());
        while i < list.len()
            invariant
                i <= list@.len(),
                lv == json_views(list@),
                number_views(out@) == loads(lv.take(i as int)),
            decreases list.len() - i,
        {
            let ghost before = number_views(out@);
            assert(lv.take(i + 1).drop_last() =~= lv.take(i as int));
            assert(lv.take(i + 1).last() == list@[i as int]@);
            if let Some(Json::Number(n)) = member_of(list[i].get("stats"), "cpu") {
                let d = n.dup();
                out.push(d);
                assert(number_views(out@) =~= before.push(d@));
            }
            i = i + 1;
        }
        assert(lv.take(i as int) =~= lv);
    }
    out
}

/// A count as JSON.
fn count_json(n: u128) -> (r: Json)
    ensures
        r@ == counted(n as nat),
{
    if n <= 0xffff_ffff_ffff_ffff {
        Json::count(n as u64)
    } else {
        Json::count(0xffff_ffff_ffff_ffff)
    }
}

/// The overview of the machines of a status report, given the average of their
/// loads.
pub fn overview(devices: &Json, average: i64) -> (r: Json)
    ensures
        r@ == overview_view(machines(devices@), average),
{
    let ghost all = machines(devices@);
    let mut online: u128 = 0;
    let mut containers: u128 = 0;
    let mut total: u128 = 0;
    if let Some(list) = devices.as_array() {
        let ghost lv = json_views(list@);
        let n: usize = list.len();
        let mut i: usize = 0;
        assert(lv.take(0) =~= Seq::<JsonView>::empty());
        while i < n
            invariant
                i <= n,
                n == list@.len(),
                lv == json_views(list@),
                online == online_count(lv.take(i as int)),
                online <= i,
                containers == container_count(lv.take(i as int)),
                containers <= i * 0x1_0000_0000_0000_0000,
            decreases n - i,
        {
            let d = &list[i];
            assert(lv.take(i + 1).drop_last() =~= lv.take(i as int));
            assert(lv.take(i + 1).last() == d@);
            let up = match d.get("online") {
                Some(v) => match v.as_bool() {
                    Some(b) => b,
                    None => false,
                },
                None => false,
            };
            if up {
                online = online + 1;
            }
            let here: usize = match d.get("containers") {
                Some(v) => match v.as_object() {
                    Some(m) => m.len(),
                    None => 0,
                },
                None => 0,
            };
            assert(here == containers_on(d@));
            assert(containers + here <= (i + 1) * 0x1_0000_0000_0000_0000) by (nonlinear_arith)
                requires
                    containers <= i * 0x1_0000_0000_0000_0000,
                    here <= 0xffff_ffff_ffff_ffff,
            ;
            assert((i + 1) * 0x1_0000_0000_0000_0000 <= 0xffff_ffff_ffff_ffff
                * 0x1_0000_0000_0000_0000) by (nonlinear_arith)
                requires
                    i + 1 <= 0xffff_ffff_ffff_ffff,
            ;
            containers = containers + here as u128;
            i = i + 1;
        }
        assert(lv.take(i as int) =~= lv);
        total = list.len() as u128;
    }
    proof {
        online_is_at_most_all(all);
        if devices@.as_array() is None {
            assert(all =~= Seq::<JsonView>::empty());
        }
    }
    let reported = cpu_loads(devices);
    assert(number_views(reported@).len() == loads(all).len());
    let mut m = JsonMap::new();
    m.insert("devices", count_json(total));
    m.insert("online", count_json(online));
    m.insert("offline", count_json(total - online));
    m.insert(
        "avg_cpu",
        if reported.len() == 0 {
            Json::Null
        } else {
            Json::whole(average)
        },
    );
    m.insert("containers", count_json(containers));
    Json::object(m)
}

// ---------------------------------------------------------------------------
// Containers
// ---------------------------------------------------------------------------

/// A container on a machine.
pub struct Row {
    pub device: String,
    pub name: String,
    pub status: String,
}

/// The meaning of a [`Row`].
pub struct RowView {
    pub device: Seq<char>,
    pub name: Seq<char>,
    pub status: Seq<char>,
}

impl View for Row {
    type V = RowView;

    open spec fn view(&self) -> RowView {
        RowView { device: self.device@, name: self.name@, status: self.status@ }
    }
}

/// The views of a list of rows.
pub open spec fn row_views(v: Seq<Row>) -> Seq<RowView> {
    v.map_values(|r: Row| r@)
}

/// The rows for members that name containers and their states.
pub open spec fn rows_on(device: Seq<char>, states: Fields, running_only: bool) -> Seq<RowView>
    decreases states.len(),
{
    if states.len() == 0 {
        seq![]
    } else {
        let before = rows_on(device, states.drop_last(), running_only);
        let status = text_or(Some(states.last().1), "unknown"@);
        if running_only && status != "running"@ {
            before
        } else {
            before.push(RowView { device, name: states.last().0, status })
        }
    }
}

/// The rows for the containers of a machine.
pub open spec fn rows_of(d: JsonView, running_only: bool) -> Seq<RowView> {
    match d.get("containers"@) {
        Some(JsonView::Object(m)) => rows_on(text_or(d.get("id"@), ""@), m, running_only),
        _ => seq![],
    }
}

/// The rows for the containers of all machines.
pub open spec fn all_rows(list: Seq<JsonView>, running_only: bool) -> Seq<RowView>
    decreases list.len(),
{
    if list.len() == 0 {
        seq![]
    } else {
        all_rows(list.drop_last(), running_only) + rows_of(list.last(), running_only)
    }
}

/// The key that a row is ordered by: running containers come first, then the
/// names decide.
pub open spec fn row_key(r: RowView) -> Key {
    (r.status != "running"@, r.name)
}

/// The keys of a list of rows.
pub open spec fn row_keys(rows: Seq<RowView>) -> Seq<Key> {
    rows.map_values(|r: RowView| row_key(r))
}

/// Where only running containers are asked for, every row is running.
pub proof fn running_only_means_running(list: Seq<JsonView>, i: int)
    requires
        0 <= i < all_rows(list, true).len(),
    ensures
        all_rows(list, true)[i].status == "running"@,
    decreases list.len(),
{
    if list.len() > 0 {
        let before = all_rows(list.drop_last(), true);
        if i < before.len() {
            running_only_means_running(list.drop_last(), i);
        } else {
            let d = list.last();
            let k = i - before.len();
            assert(all_rows(list, true)[i] == rows_of(d, true)[k]);
            lemma_rows_run(text_or(d.get("id"@), ""@), d.get("containers"@)->0->Object_0, k);
        }
    }
}

/// Where only running containers of a machine are asked for, every row is
/// running.
proof fn lemma_rows_run(device: Seq<char>, states: Fields, k: int)
    requires
        0 <= k < rows_on(device, states, true).len(),
    ensures
        rows_on(device, states, true)[k].status == "running"@,
    decreases states.len(),
{
    if states.len() > 0 {
        let before = rows_on(device, states.drop_last(), true);
        if k < before.len() {
            lemma_rows_run(device, states.drop_last(), k);
        }
    }
}

/// The rows come in order: running containers first, then by name.
pub proof fn container_rows_are_in_order(rows: Seq<RowView>, i: int, j: int)
    requires
        0 <= i < j < rows.len(),
    ensures
        arranged(rows, row_keys(rows)).len() == rows.len(),
        !key_before(
            row_key(arranged(rows, row_keys(rows))[j]),
            row_key(arranged(rows, row_keys(rows))[i]),
        ),
        arranged(rows, row_keys(rows))[i].status != "running"@ ==> arranged(
            rows,
            row_keys(rows),
        )[j].status != "running"@,
{
    let keys = row_keys(rows);
    let key = |r: RowView| row_key(r);
    assert forall|k: int| 0 <= k < rows.len() implies keys[k] == key(#[trigger] rows[k]) by {}
    arranged_follows_the_keys(rows, keys, key);
    arranged_is_in_order(keys);
    arranged_is_a_permutation(rows, keys);
    let all = arranged(rows, keys);
    let sorted = sorted_keys(keys);
    assert(sorted == all.map_values(key));
    assert(sorted[i] == row_key(all[i]));
    assert(sorted[j] == row_key(all[j]));
}

/// A row as JSON.
pub open spec fn row_json(r: RowView) -> JsonView {
    let m = with_field(seq![], "device"@, JsonView::Str(r.device));
    let m = with_field(m, "name"@, JsonView::Str(r.name));
    JsonView::Object(with_field(m, "status"@, JsonView::Str(r.status)))
}

/// The containers that a widget shows.
pub open spec fn containers_view(w: Widget, devices: JsonView) -> JsonView {
    let rows = all_rows(machines(devices), flag_setting(w.settings@, "running_only"@));
    let limit = clamped(number_setting(w.settings@, "limit"@) as int, 1, 50);
    let shown = first(arranged(rows, row_keys(rows)), limit);
    single("items"@, JsonView::Array(shown.map_values(|r: RowView| row_json(r))))
}

/// Adds the rows for the containers of a machine.
fn add_rows(d: &Json, running_only: bool, out: &mut Vec<Row>)
    ensures
        row_views(final(out)@) == row_views(old(out)@) + rows_of(d@, running_only),
{
    let ghost start = row_views(out@);
    let device = text_of(d.get("id"), "");
    let map: Option<&JsonMap> = match d.get("containers") {
        Some(v) => v.as_object(),
        None => None,
    };
    match map {
        Some(states) => {
            let ghost sv = states@;
            assert(d@.get("containers"@) == Some(JsonView::Object(sv)));
            let n: usize = states.len();
            let mut i: usize = 0;
            assert(sv.take(0) =~= Seq::<(Seq<char>, JsonView)>::empty());
            assert(start + rows_on(device@, sv.take(0), running_only) =~= start);
            while i < n
                invariant
                    i <= n,
                    n == states.entries@.len(),
                    sv == states@,
                    row_views(out@) == start + rows_on(device@, sv.take(i as int), running_only),
                decreases n - i,
            {
                let ghost before = row_views(out@);
                assert(sv.take(i + 1).drop_last() =~= sv.take(i as int));
                assert(sv.take(i + 1).last() == sv[i as int]);
                let status = text_of(Some(&states.entries[i].1), "unknown");
                if !(running_only && !same(status, "running")) {
                    let row = Row {
                        device: String::from_str(device),
                        name: states.entries[i].0.clone(),
                        status: String::from_str(status),
                    };
                    out.push(row);
                    assert(row_views(out@) =~= before.push(row@));
                    assert(start + rows_on(device@, sv.take(i as int), running_only).push(row@)
                        =~= before.push(row@));
                }
                i = i + 1;
            }
            assert(sv.take(i as int) =~= sv);
        },
        None => {
            assert(start + Seq::<RowView>::empty() =~= start);
        },
    }
}

/// The containers that a widget shows.
pub fn containers(w: &Widget, devices: &Json) -> (r: Json)
    ensures
        r@ == containers_view(*w, devices@),
{
    let running_only = w.get_bool("running_only");
    let limit: usize = clamp(w.get_i64("limit"), 1, 50) as usize;
    let ghost all = machines(devices@);
    let mut rows: Vec<Row> = Vec::new();
    assert(row_views(rows@) =~= Seq::<RowView>::empty());
    if let Some(list) = devices.as_array() {
        let ghost lv = json_views(list@);
        let mut i: usize = 0;
        assert(lv.take(0) =~= Seq::<JsonView>::empty());
        while i < list.len()
            invariant
                i <= list@.len(),
                lv == json_views(list@),
                row_views(rows@) == all_rows(lv.take(i as int), running_only),
            decreases list.len() - i,
        {
            assert(lv.take(i + 1).drop_last() =~= lv.take(i as int));
            assert(lv.take(i + 1).last() == list@[i as int]@);
            add_rows(&list[i], running_only, &mut rows);
            i = i + 1;
        }
        assert(lv.take(i as int) =~= lv);
    } else {
        assert(all =~= Seq::<JsonView>::empty());
    }
    let ghost rv = row_views(rows@);
    assert(rv == all_rows(all, running_only));
    let mut keys: Vec<(bool, String)> = Vec::new();
    let mut i: usize = 0;
    while i < rows.len()
        invariant
            i <= rows@.len(),
            rv == row_views(rows@),
            key_views(keys@) == row_keys(rv).take(i as int),
        decreases rows.len() - i,
    {
        let ghost before = key_views(keys@);
        keys.push((!same(rows[i].status.as_str(), "running"), rows[i].name.clone()));
        i = i + 1;
        assert(key_views(keys@) =~= before.push(row_key(rows@[i - 1]@)));
        assert(row_keys(rv).take(i as int) =~= before.push(row_keys(rv)[i - 1]));
    }
    assert(row_keys(rv).take(i as int) =~= row_keys(rv));
    proof {
        lemma_arranged_maps(rows@, row_keys(rv), |r: Row| r@);
        arranged_is_a_permutation(rows@, row_keys(rv));
    }
    let mut sorted = sort_by_key(rows, keys);
    let ghost sv = sorted@;
    sorted.truncate(limit);
    let ghost shown = first(arranged(rv, row_keys(rv)), limit as int);
    assert(row_views(sorted@) =~= shown);
    let mut items: Vec<Json> = Vec::new();
    let mut j: usize = 0;
    while j < sorted.len()
        invariant
            j <= sorted@.len(),
            items@.len() == j,
            forall|k: int| 0 <= k < j ==> (#[trigger] items@[k])@ == row_json(sorted@[k]@),
        decreases sorted.len() - j,
    {
        let row = &sorted[j];
        let mut m = JsonMap::new();
        m.insert("device", Json::text(row.device.as_str()));
        m.insert("name", Json::text(row.name.as_str()));
        m.insert("status", Json::text(row.status.as_str()));
        items.push(Json::object(m));
        j = j + 1;
    }
    assert(json_views(items@) =~= shown.map_values(|r: RowView| row_json(r))) by {
        assert forall|k: int| 0 <= k < items@.len() implies json_views(items@)[k] == row_json(
            shown[k],
        ) by {
            assert(row_views(sorted@)[k] == sorted@[k]@);
        }
    }
    object_with("items", Json::array(items))
}

// ---------------------------------------------------------------------------
// Links
// ---------------------------------------------------------------------------

/// The link that a line such as `Name|https://example.com` gives. A line without
/// a bar, or with something other than a web address behind it, gives none.
pub open spec fn link_of(line: Seq<char>) -> Option<JsonView> {
    match cut(line, '|') {
        Some((name, url)) => if begins(trimmed(url), "http"@) {
            let m = with_field(seq![], "name"@, JsonView::Str(trimmed(name)));
            Some(JsonView::Object(with_field(m, "url"@, JsonView::Str(trimmed(url)))))
        } else {
            None
        },
        None => None,
    }
}

/// The links that lines give.
pub open spec fn links_of(rows: Seq<Seq<char>>) -> Seq<JsonView>
    decreases rows.len(),
{
    if rows.len() == 0 {
        seq![]
    } else {
        match link_of(rows.last()) {
            Some(l) => links_of(rows.drop_last()).push(l),
            None => links_of(rows.drop_last()),
        }
    }
}

/// The links that a widget shows.
pub fn links(w: &Widget) -> (r: Json)
    ensures
        r@ == single(
            "items"@,
            JsonView::Array(links_of(lines(text_setting(w.settings@, "items"@)))),
        ),
{
    let text = w.get_str("items");
    let rows = split_lines(text.as_str());
    let ghost rv = views(rows@);
    let mut items: Vec<Json> = Vec::new();
    let mut i: usize = 0;
    assert(json_views(items@) =~= links_of(rv.take(0)));
    while i < rows.len()
        invariant
            i <= rows@.len(),
            rv == views(rows@),
            json_views(items@) == links_of(rv.take(i as int)),
        decreases rows.len() - i,
    {
        let ghost before = json_views(items@);
        assert(rv.take(i + 1).drop_last() =~= rv.take(i as int));
        assert(rv.take(i + 1).last() == rows@[i as int]@);
        if let Some((name, url)) = split_once(rows[i].as_str(), '|') {
            let url = trim(url.as_str());
            if starts_with(url.as_str(), "http") {
                let name = trim(name.as_str());
                let mut m = JsonMap::new();
                m.insert("name", Json::text(name.as_str()));
                m.insert("url", Json::text(url.as_str()));
                let j = Json::object(m);
                items.push(j);
                assert(json_views(items@) =~= before.push(j@));
            }
        }
        i = i + 1;
    }
    assert(rv.take(i as int) =~= rv);
    object_with("items", Json::array(items))
}

// ---------------------------------------------------------------------------
// News
// ---------------------------------------------------------------------------

/// For how many seconds news are reused.
pub const RSS_TTL: u64 = 600;

/// How many feeds a widget reads.
pub const MAX_FEEDS: usize = 8;

/// What a news widget asks for.
#[derive(Debug)]
pub struct RssRequest {
    pub feeds: Vec<String>,
    pub limit: usize,
    /// What the answer is kept under.
    pub key: String,
}

/// Is this the address of a feed?
pub open spec fn is_feed(line: Seq<char>) -> bool {
    begins(line, "http://"@) || begins(line, "https://"@)
}

/// The addresses of feeds among lines.
pub open spec fn feeds_among(rows: Seq<Seq<char>>) -> Seq<Seq<char>>
    decreases rows.len(),
{
    if rows.len() == 0 {
        seq![]
    } else if is_feed(trimmed(rows.last())) {
        feeds_among(rows.drop_last()).push(trimmed(rows.last()))
    } else {
        feeds_among(rows.drop_last())
    }
}

/// The feeds that a widget reads: the first ones that are set.
pub open spec fn feeds_of(w: Widget) -> Seq<Seq<char>> {
    first(feeds_among(lines(text_setting(w.settings@, "feeds"@))), MAX_FEEDS as int)
}

/// How many items a widget shows.
pub open spec fn rss_limit(w: Widget) -> int {
    clamped(number_setting(w.settings@, "limit"@) as int, 1, 30)
}

/// Is this what the widget asks for? The feeds are those that are set, and no
/// others.
pub open spec fn asks_news(q: RssRequest, w: Widget) -> bool {
    &&& views(q.feeds@) == feeds_of(w)
    &&& q.limit == rss_limit(w)
    &&& q.key@ == "rss:"@ + join(feeds_of(w), "|"@) + ":"@ + decimal(rss_limit(w) as nat)
}

/// What a news widget asks for.
pub fn rss_request(w: &Widget) -> (r: RssRequest)
    ensures
        asks_news(r, *w),
{
    let text = w.get_str("feeds");
    let rows = split_lines(text.as_str());
    let ghost rv = views(rows@);
    let mut feeds: Vec<String> = Vec::new();
    let mut i: usize = 0;
    assert(views(feeds@) =~= feeds_among(rv.take(0)));
    while i < rows.len()
        invariant
            i <= rows@.len(),
            rv == views(rows@),
            views(feeds@) == feeds_among(rv.take(i as int)),
        decreases rows.len() - i,
    {
        let ghost before = views(feeds@);
        assert(rv.take(i + 1).drop_last() =~= rv.take(i as int));
        assert(rv.take(i + 1).last() == rows@[i as int]@);
        let line = trim(rows[i].as_str());
        if starts_with(line.as_str(), "http://") || starts_with(line.as_str(), "https://") {
            feeds.push(line);
            assert(views(feeds@) =~= before.push(trimmed(rows@[i as int]@)));
        }
        i = i + 1;
    }
    assert(rv.take(i as int) =~= rv);
    let ghost all = views(feeds@);
    feeds.truncate(MAX_FEEDS);
    assert(views(feeds@) =~= first(all, MAX_FEEDS as int));
    let limit: usize = clamp(w.get_i64("limit"), 1, 30) as usize;
    let joined = join_strings(&feeds, "|");
    let count = to_decimal(limit as u128);
    let mut key = concat3("rss:", joined.as_str(), ":");
    key.append(count.as_str());
    RssRequest { feeds, limit, key }
}

/// The news that a widget shows: the first items of all that were found.
pub fn rss_data(items: &Vec<FeedItem>, limit: usize) -> (r: Json)
    ensures
        r@ == single(
            "items"@,
            JsonView::Array(
                first(item_views(items@), limit as int).map_values(|i: ItemView| item_json(i)),
            ),
        ),
{
    let ghost shown = first(item_views(items@), limit as int);
    let mut rows: Vec<Json> = Vec::new();
    let mut i: usize = 0;
    while i < items.len() && i < limit
        invariant
            i <= items@.len(),
            i <= limit,
            rows@.len() == i,
            forall|k: int| 0 <= k < i ==> (#[trigger] rows@[k])@ == item_json(items@[k]@),
        decreases items.len() - i,
    {
        rows.push(items[i].json());
        i = i + 1;
    }
    assert(json_views(rows@) =~= shown.map_values(|i: ItemView| item_json(i)));
    object_with("items", Json::array(rows))
}

/// The items of the feeds that could be read, in the order of the feeds.
pub open spec fn items_found(found: Seq<Result<Vec<FeedItem>, String>>) -> Seq<ItemView>
    decreases found.len(),
{
    if found.len() == 0 {
        seq![]
    } else {
        let before = items_found(found.drop_last());
        match found.last() {
            Ok(items) => before + item_views(items@),
            Err(_) => before,
        }
    }
}

/// The news of a widget from what came of reading its feeds: one that could not
/// be read is passed over.
pub fn rss(found: Vec<Result<Vec<FeedItem>, String>>, limit: usize) -> (r: Json)
    ensures
        r@ == single(
            "items"@,
            JsonView::Array(
                first(items_found(found@), limit as int).map_values(|i: ItemView| item_json(i)),
            ),
        ),
{
    let mut all: Vec<FeedItem> = Vec::new();
    let n: usize = found.len();
    let mut i: usize = 0;
    assert(item_views(all@) =~= items_found(found@.take(0)));
    while i < n
        invariant
            i <= n,
            n == found@.len(),
            item_views(all@) == items_found(found@.take(i as int)),
        decreases n - i,
    {
        assert(found@.take(i + 1).drop_last() =~= found@.take(i as int));
        assert(found@.take(i + 1).last() == found@[i as int]);
        if let Ok(items) = &found[i] {
            let ghost before = item_views(all@);
            let m: usize = items.len();
            let mut k: usize = 0;
            assert(before + item_views(items@).take(0) =~= before);
            while k < m
                invariant
                    k <= m,
                    m == items@.len(),
                    item_views(all@) == before + item_views(items@).take(k as int),
                decreases m - k,
            {
                let item = items[k].dup();
                let ghost earlier = item_views(all@);
                all.push(item);
                k = k + 1;
                assert(item_views(all@) =~= earlier.push(item@));
                assert(before + item_views(items@).take(k as int) =~= earlier.push(item@));
            }
            assert(item_views(items@).take(k as int) =~= item_views(items@));
        }
        i = i + 1;
    }
    assert(found@.take(i as int) =~= found@);
    rss_data(&all, limit)
}

// ---------------------------------------------------------------------------
// The clock
// ---------------------------------------------------------------------------

/// The time of day in seconds since the start of 1970.
pub fn iso_now() -> (r: String)
    ensures
        exists|now: u64| r@ == #[trigger] decimal(now as nat),
{
    let now: u64 = secs_now();
    let r = to_decimal(now as u128);
    assert(r@ == decimal(now as nat));
    r
}

// ---------------------------------------------------------------------------
// Choosing
// ---------------------------------------------------------------------------

/// Where the data of a widget comes from.
#[derive(Debug)]
pub enum Source {
    /// The data is there.
    Ready(Json),
    Weather(WeatherRequest),
    Rss(RssRequest),
}

/// The data of a widget, or what to fetch for it. What is fetched is decided by
/// the widget's settings alone.
pub fn data_for(w: &Widget, devices: &Json, average: i64) -> (r: Source)
    ensures
        match (w.kind, r) {
            (WidgetKind::Weather, Source::Weather(q)) => asks(q, *w),
            (WidgetKind::Rss, Source::Rss(q)) => asks_news(q, *w) && feeds_of(*w).len() > 0,
            (WidgetKind::Rss, Source::Ready(j)) => feeds_of(*w).len() == 0 && j@ == single(
                "items"@,
                JsonView::Array(seq![]),
            ),
            (WidgetKind::Overview, Source::Ready(j)) => j@ == overview_view(
                machines(devices@),
                average,
            ),
            (WidgetKind::Containers, Source::Ready(j)) => j@ == containers_view(*w, devices@),
            (WidgetKind::Links, Source::Ready(j)) => j@ == single(
                "items"@,
                JsonView::Array(links_of(lines(text_setting(w.settings@, "items"@)))),
            ),
            (WidgetKind::Clock, Source::Ready(j)) => exists|now: u64|
                j@ == single("iso"@, JsonView::Str(#[trigger] decimal(now as nat))),
            _ => false,
        },
{
    match w.kind {
        WidgetKind::Weather => Source::Weather(weather_request(w)),
        WidgetKind::Rss => {
            let q = rss_request(w);
            assert(views(q.feeds@).len() == q.feeds@.len());
            if q.feeds.len() == 0 {
                let none: Vec<Json> = Vec::new();
                assert(json_views(none@) =~= Seq::<JsonView>::empty());
                Source::Ready(object_with("items", Json::array(none)))
            } else {
                Source::Rss(q)
            }
        },
        WidgetKind::Overview => Source::Ready(overview(devices, average)),
        WidgetKind::Containers => Source::Ready(containers(w, devices)),
        WidgetKind::Links => Source::Ready(links(w)),
        WidgetKind::Clock => {
            let now = iso_now();
            Source::Ready(object_with("iso", Json::text(now.as_str())))
        },
    }
}

// ---------------------------------------------------------------------------
// Laws of the overview
// ---------------------------------------------------------------------------

/// Counting goes machine by machine: one more machine adds one where it says that
/// it is online, the containers that it reports, and its load where it reports
/// one.
pub proof fn every_machine_counts_once(list: Seq<JsonView>, d: JsonView, m: Fields, n: NumberView)
    ensures
        online_count(seq![]) == 0 && container_count(seq![]) == 0 && loads(seq![]).len() == 0,
        online_count(list.push(d)) == online_count(list) + if d.get("online"@) == Some(
            JsonView::Bool(true),
        ) {
            1nat
        } else {
            0nat
        },
        d.get("containers"@) == Some(JsonView::Object(m)) ==> container_count(list.push(d))
            == container_count(list) + m.len(),
        d.get("containers"@) is None ==> container_count(list.push(d)) == container_count(list),
        member(d.get("stats"@), "cpu"@) == Some(JsonView::Number(n)) ==> loads(list.push(d))
            == loads(list).push(n),
        d.get("stats"@) is None || d.get("stats"@) == Some(JsonView::Null) ==> loads(list.push(d))
            == loads(list),
{
    assert(list.push(d).drop_last() =~= list);
}

/// The machines of a status report are its elements; what is no list has none.
pub proof fn the_machines_are_the_elements(v: Seq<JsonView>, devices: JsonView)
    ensures
        machines(JsonView::Array(v)) == v,
        devices !is Array ==> machines(devices).len() == 0,
{
}

/// The overview gives the number of machines, of those online and of those
/// offline, which make up all of them, and the number of containers. The average
/// load is there where some machine reports a load.
pub proof fn the_overview_adds_up(list: Seq<JsonView>, average: i64)
    requires
        list.len() <= u64::MAX,
        container_count(list) <= u64::MAX,
    ensures
        ({
            let v = overview_view(list, average);
            &&& v.get("devices"@) matches Some(j) && j.as_u64() == Some(list.len() as u64)
            &&& v.get("online"@) matches Some(j) && j.as_u64() == Some(online_count(list) as u64)
            &&& v.get("offline"@) matches Some(j) && j.as_u64() matches Some(off) && off
                + online_count(list) == list.len()
            &&& v.get("containers"@) matches Some(j) && j.as_u64() == Some(
                container_count(list) as u64,
            )
            &&& loads(list).len() == 0 ==> v.get("avg_cpu"@) == Some(JsonView::Null)
            &&& loads(list).len() > 0 ==> (v.get("avg_cpu"@) matches Some(j) && j.as_i64() == Some(
                average,
            ))
        }),
{
    broadcast use crate::json::reading_behind_setting;

    reveal_strlit("devices");
    reveal_strlit("online");
    reveal_strlit("offline");
    reveal_strlit("containers");
    reveal_strlit("avg_cpu");
    assert("devices"@.len() == 7 && "online"@.len() == 6 && "offline"@.len() == 7);
    assert("containers"@.len() == 10 && "avg_cpu"@.len() == 7);
    assert("devices"@[0] == 'd');
    assert("offline"@[0] == 'o');
    assert("avg_cpu"@[0] == 'a');
    online_is_at_most_all(list);
}

// ---------------------------------------------------------------------------
// Laws of the containers
// ---------------------------------------------------------------------------

/// Every container of a machine makes a row of the machine, its name and its
/// state, in the order of the containers. Where only running ones are asked for,
/// those and no others do.
pub proof fn every_container_makes_a_row(
    device: Seq<char>,
    states: Fields,
    name: Seq<char>,
    status: Seq<char>,
)
    ensures
        ({
            let row = RowView { device, name, status };
            let more = states.push((name, JsonView::Str(status)));
            &&& rows_on(device, more, false) == rows_on(device, states, false).push(row)
            &&& status == "running"@ ==> rows_on(device, more, true) == rows_on(
                device,
                states,
                true,
            ).push(row)
            &&& status != "running"@ ==> rows_on(device, more, true) == rows_on(device, states, true)
        }),
        rows_on(device, states.push((name, JsonView::Null)), false) == rows_on(
            device,
            states,
            false,
        ).push(RowView { device, name, status: "unknown"@ }),
        rows_on(device, seq![], false).len() == 0 && rows_on(device, seq![], true).len() == 0,
{
    let more = states.push((name, JsonView::Str(status)));
    assert(more.drop_last() =~= states);
    assert(states.push((name, JsonView::Null)).drop_last() =~= states);
}

/// The rows of all machines stand one machine behind the other, and a machine is
/// named by its id.
pub proof fn the_rows_go_machine_by_machine(
    list: Seq<JsonView>,
    d: JsonView,
    id: Seq<char>,
    m: Fields,
    running_only: bool,
)
    requires
        d.get("id"@) == Some(JsonView::Str(id)),
    ensures
        d.get("containers"@) == Some(JsonView::Object(m)) ==> all_rows(list.push(d), running_only)
            == all_rows(list, running_only) + rows_on(id, m, running_only),
        d.get("containers"@) is None ==> all_rows(list.push(d), running_only) == all_rows(
            list,
            running_only,
        ),
        all_rows(seq![], running_only).len() == 0,
{
    assert(list.push(d).drop_last() =~= list);
    if d.get("containers"@) is None {
        assert(all_rows(list, running_only) + Seq::<RowView>::empty() =~= all_rows(
            list,
            running_only,
        ));
    }
}

/// Rows mean what they hold, in their order.
pub proof fn rows_mean_what_they_hold(v: Seq<Row>, i: int)
    requires
        0 <= i < v.len(),
    ensures
        row_views(v).len() == v.len(),
        row_views(v)[i].device == v[i].device@,
        row_views(v)[i].name == v[i].name@,
        row_views(v)[i].status == v[i].status@,
{
}

/// What is shown of a container is its machine, its name and its state.
pub proof fn a_row_is_shown_as_it_is(r: RowView)
    ensures
        row_json(r).get("device"@) == Some(JsonView::Str(r.device)),
        row_json(r).get("name"@) == Some(JsonView::Str(r.name)),
        row_json(r).get("status"@) == Some(JsonView::Str(r.status)),
{
    broadcast use crate::json::reading_behind_setting;

    reveal_strlit("device");
    reveal_strlit("name");
    reveal_strlit("status");
    assert("device"@.len() == 6 && "name"@.len() == 4 && "status"@.len() == 6);
    assert("device"@[0] == 'd');
    assert("status"@[0] == 's');
}

/// Among containers that all run, or all do not, the names go up.
pub proof fn names_go_up_within_a_state(rows: Seq<RowView>, i: int, j: int)
    requires
        0 <= i < j < rows.len(),
    ensures
        ({
            let shown = arranged(rows, row_keys(rows));
            (shown[i].status == "running"@) == (shown[j].status == "running"@) ==> !text_before(
                shown[j].name,
                shown[i].name,
            )
        }),
{
    container_rows_are_in_order(rows, i, j);
}

/// A widget shows the first containers in that order: as many as its limit, which
/// is at least one and at most fifty, and as there are.
pub proof fn a_widget_shows_the_first_containers(w: Widget, devices: JsonView)
    ensures
        ({
            let rows = all_rows(machines(devices), flag_setting(w.settings@, "running_only"@));
            let n = number_setting(w.settings@, "limit"@);
            let limit = if n < 1 {
                1
            } else if n > 50 {
                50
            } else {
                n as int
            };
            containers_view(w, devices).get("items"@) matches Some(JsonView::Array(v)) && v.len()
                == if rows.len() < limit {
                rows.len() as int
            } else {
                limit
            } && forall|i: int|
                0 <= i < v.len() ==> #[trigger] v[i] == row_json(arranged(rows, row_keys(rows))[i])
        }),
{
    broadcast use crate::json::reading_behind_setting;

    let rows = all_rows(machines(devices), flag_setting(w.settings@, "running_only"@));
    arranged_is_a_permutation(rows, row_keys(rows));
}

// ---------------------------------------------------------------------------
// Laws of links and news
// ---------------------------------------------------------------------------

/// A line gives a link of the name in front of its first bar and the address
/// behind it, both trimmed, where that is a web address; it gives none otherwise.
pub proof fn a_line_gives_a_name_and_an_address(name: Seq<char>, url: Seq<char>)
    requires
        !name.contains('|'),
    ensures
        match link_of(name + seq!['|'] + url) {
            Some(l) => begins(trimmed(url), "http"@) && l.get("name"@) == Some(
                JsonView::Str(trimmed(name)),
            ) && l.get("url"@) == Some(JsonView::Str(trimmed(url))),
            None => !begins(trimmed(url), "http"@),
        },
        link_of(name) is None,
{
    broadcast use crate::json::reading_behind_setting;

    reveal_strlit("http");
    reveal_strlit("name");
    reveal_strlit("url");
    assert("http"@.len() == 4 && "name"@.len() == 4 && "url"@.len() == 3);
    assert("http"@[0] == 'h');
    assert("name"@[0] == 'n');
    lemma_split_head(name, '|', url);
    lemma_split_plain(name, '|');
}

/// The links stand in the order of their lines, and no line is passed over that
/// gives one.
pub proof fn the_links_go_line_by_line(rows: Seq<Seq<char>>, line: Seq<char>)
    ensures
        link_of(line) matches Some(l) ==> links_of(rows.push(line)) == links_of(rows).push(l),
        link_of(line) is None ==> links_of(rows.push(line)) == links_of(rows),
        links_of(seq![]).len() == 0,
{
    assert(rows.push(line).drop_last() =~= rows);
}

/// The feeds are the lines that are web addresses, trimmed, in their order.
pub proof fn the_feeds_go_line_by_line(rows: Seq<Seq<char>>, line: Seq<char>)
    ensures
        begins(trimmed(line), "http://"@) || begins(trimmed(line), "https://"@) ==> feeds_among(
            rows.push(line),
        ) == feeds_among(rows).push(trimmed(line)),
        !begins(trimmed(line), "http://"@) && !begins(trimmed(line), "https://"@) ==> feeds_among(
            rows.push(line),
        ) == feeds_among(rows),
        feeds_among(seq![]).len() == 0,
{
    assert(rows.push(line).drop_last() =~= rows);
}

/// A widget reads the first eight of its feeds, or all where there are fewer, and
/// shows between one and thirty items, as many as are set within that.
pub proof fn a_widget_reads_its_first_feeds(q: RssRequest, w: Widget, i: int)
    requires
        asks_news(q, w),
    ensures
        ({
            let all = feeds_among(lines(text_setting(w.settings@, "feeds"@)));
            let n = number_setting(w.settings@, "limit"@);
            &&& q.feeds@.len() == if all.len() < 8 {
                all.len()
            } else {
                8
            }
            &&& 0 <= i < q.feeds@.len() ==> q.feeds@[i]@ == all[i]
            &&& 1 <= n <= 30 ==> q.limit == n
            &&& n < 1 ==> q.limit == 1
            &&& n > 30 ==> q.limit == 30
        }),
{
    assert(views(q.feeds@).len() == q.feeds@.len());
    if 0 <= i < q.feeds@.len() {
        assert(views(q.feeds@)[i] == q.feeds@[i]@);
    }
}

/// News are kept under their feeds and their number, and for ten minutes.
pub proof fn news_are_kept_under_their_feeds(q: RssRequest, w: Widget)
    requires
        asks_news(q, w),
    ensures
        q.key@ == "rss:"@ + join(views(q.feeds@), "|"@) + ":"@ + decimal(q.limit as nat),
        RSS_TTL == 600,
{
}

/// Other feeds, or another number of items, are kept under another key.
pub proof fn news_keys_differ(a: RssRequest, u: Widget, b: RssRequest, v: Widget)
    requires
        asks_news(a, u),
        asks_news(b, v),
        a.key@ == b.key@,
    ensures
        a.limit == b.limit,
        join(views(a.feeds@), seq!['|']) == join(views(b.feeds@), seq!['|']),
{
    reveal_strlit("rss:");
    reveal_strlit(":");
    reveal_strlit("|");
    assert("|"@ =~= seq!['|']);
    let x = "rss:"@ + join(feeds_of(u), "|"@);
    let y = "rss:"@ + join(feeds_of(v), "|"@);
    let m = decimal(rss_limit(u) as nat);
    let n = decimal(rss_limit(v) as nat);
    lemma_decimal(rss_limit(u) as nat);
    lemma_decimal(rss_limit(v) as nat);
    lemma_digits_hold_no_colon(m);
    lemma_digits_hold_no_colon(n);
    crate::text::the_last_separator_cuts(x, ':', m);
    crate::text::the_last_separator_cuts(y, ':', n);
    assert(a.key@ =~= x + seq![':'] + m);
    assert(b.key@ =~= y + seq![':'] + n);
    assert(x.skip(4) =~= join(feeds_of(u), "|"@));
    assert(y.skip(4) =~= join(feeds_of(v), "|"@));
}

/// A row of digits holds no colon.
proof fn lemma_digits_hold_no_colon(s: Seq<char>)
    requires
        crate::numbers::all_digits(s),
    ensures
        !s.contains(':'),
{
    if s.contains(':') {
        let i = choose|i: int| 0 <= i < s.len() && s[i] == ':';
        assert(crate::text::is_digit(s[i]));
    }
}

/// The items stand feed by feed, each feed's in their order; a feed that could
/// not be read adds none and stops nothing.
pub proof fn the_items_go_feed_by_feed(
    found: Seq<Result<Vec<FeedItem>, String>>,
    items: Vec<FeedItem>,
    error: String,
)
    ensures
        items_found(found.push(Ok(items))) == items_found(found) + item_views(items@),
        items_found(found.push(Err(error))) == items_found(found),
        items_found(seq![]).len() == 0,
{
    assert(found.push(Ok(items)).drop_last() =~= found);
    assert(found.push(Err(error)).drop_last() =~= found);
}

/// An object with one member holds that member and no other.
pub proof fn one_member_is_all_there_is(key: Seq<char>, value: JsonView, other: Seq<char>)
    ensures
        single(key, value).get(key) == Some(value),
        other != key ==> single(key, value).get(other) is None,
{
    broadcast use crate::json::reading_behind_setting;

}

} // verus!
