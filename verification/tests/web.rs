//! Widget data, feeds, the weather and what the browser shows.

use mindash::cards::{
    clock_text, current, filled, input_id, overview_view, put, render_body, row_runs, rows_at,
    str_at, typed_number, weather_view, Body, Filled, Tab, WidgetCard, WidgetPicker,
};
use mindash::client::{
    decode, device_url, file_url, files_url, widget_data_url, widget_url, Ask, Container,
    DeviceStatus, Entry, Listing,
};
use mindash::config::{Device, ThemeColors, WolConfig};
use mindash::feed::{feed_from_events, feed_host, read_feed, XmlEvent};
use mindash::json::{Json, JsonMap, Number};
use mindash::net::ContainerAction;
use mindash::numbers::{
    clip_bytes, parse_i64, parse_u64, parse_up_to, to_decimal, to_hex,
    to_signed_decimal,
};
use mindash::order::{sort_by_key, text_less};
use mindash::panels::{
    container_actions, container_question, crumbs, num_at, offers, online, open, power_question,
    stats_shown, tile_name, up, ContainersPanel, DeviceCard, FileBrowser, Opened,
};
use mindash::providers::{
    containers, cpu_loads, data_for, iso_now, links, overview, rss, rss_data, rss_request, Source,
};
use mindash::shell::PowerAction;
use mindash::text::{
    clip, contains, control, join_strings, rsplit_once, space, split_char, split_lines, split_once,
    split_up_to, starts_with, to_ascii_lower, trim, trim_end_set, trim_start_set,
};
use mindash::theme::{css, ground, parse_hex, readable_ink, rgba, wallpaper, Color, Size};
use mindash::urls::{encode_path, urlencode};
use mindash::weather::{apply_units, day_label, parse_weather, temperatures, weather_request};
use mindash::widgets::{coerce_settings, Widget, WidgetKind};
use serde_json::Value;

fn json(v: &Value) -> Json {
    match v {
        Value::Null => Json::Null,
        Value::Bool(b) => Json::Bool(*b),
        Value::Number(n) => Json::Number(match (n.as_u64(), n.as_i64()) {
            (Some(u), _) => Number::PosInt(u),
            (None, Some(i)) => Number::NegInt(i),
            _ => Number::Float(n.to_string()),
        }),
        Value::String(s) => Json::Str(s.clone()),
        Value::Array(v) => Json::Array(v.iter().map(json).collect()),
        Value::Object(m) => {
            let mut out = JsonMap::new();
            for (k, v) in m {
                out.insert(k, json(v));
            }
            Json::Object(out)
        }
    }
}

fn parse(text: &str) -> Json {
    json(&serde_json::from_str::<Value>(text).unwrap())
}

fn word<'a>(v: &'a Json, key: &str) -> &'a str {
    v.get(key).unwrap().as_str().unwrap()
}

fn number(v: &Json, key: &str) -> i64 {
    v.get(key).unwrap().as_i64().unwrap()
}

fn is_null(v: &Json, key: &str) -> bool {
    matches!(v.get(key), Some(Json::Null))
}

fn items<'a>(v: &'a Json, key: &str) -> &'a Vec<Json> {
    v.get(key).unwrap().as_array().unwrap()
}

fn widget(kind: WidgetKind, settings: &str) -> Widget {
    Widget {
        id: "w".into(),
        kind,
        title: String::new(),
        icon: String::new(),
        settings: coerce_settings(kind, &parse(settings)),
    }
}

/// The mean of the loads that the machines give.
fn average(devices: &Json) -> i64 {
    let loads: Vec<f64> =
        cpu_loads(devices).iter().map(|n| n.text().parse().unwrap_or(0.0)).collect();
    if loads.is_empty() {
        return 0;
    }
    (loads.iter().sum::<f64>() / loads.len() as f64).round() as i64
}

fn report(devices: &str) -> Json {
    let devices = parse(devices);
    overview(&devices, average(&devices))
}

/// A temperature in Fahrenheit, where it is one.
fn to_f(s: &str) -> String {
    match s.parse::<f64>() {
        Ok(c) => format!("{}", (c * 9.0 / 5.0 + 32.0).round() as i64),
        Err(_) => s.to_string(),
    }
}

fn in_units(data: Json, units: &str) -> Json {
    let table: Vec<(String, String)> =
        temperatures(&data).into_iter().map(|t| (t.clone(), to_f(&t))).collect();
    apply_units(data, units, &table)
}

// -- widget data -----------------------------------------------------------

#[test]
fn urlencode_escapes_path_segments() {
    assert_eq!(urlencode("Berlin"), "Berlin");
    assert_eq!(urlencode("New York"), "New%20York");
    assert_eq!(urlencode("52.52,13.40"), "52.52%2C13.40");
    assert_eq!(urlencode("a/b?c=d"), "a%2Fb%3Fc%3Dd");
    assert_eq!(urlencode("Tromsø"), "Troms%C3%B8");
}

#[test]
fn day_label_is_correct() {
    assert_eq!(day_label("2026-02-03"), "Tue");
    assert_eq!(day_label("2026-02-01"), "Sun");
    assert_eq!(day_label("2026-09-19"), "Sat");
    assert_eq!(day_label("nonsense"), "nonsense");
}

#[test]
fn days_follow_each_other() {
    for (date, want) in [
        ("1970-01-01", "Thu"),
        ("2000-02-29", "Tue"),
        ("2000-03-01", "Wed"),
        ("1900-03-01", "Thu"),
        ("2024-12-31", "Tue"),
        ("2025-01-01", "Wed"),
    ] {
        assert_eq!(day_label(date), want, "{date}");
    }
    for odd in [
        "2026-13-01", "2026-13-45", "2026-00-10", "2026-02-29", "2026-04-31", "2026-01-00",
        "2026-02", "a-b-c", "", "2026-02-03-04", "99999999999-01-01",
    ] {
        assert_eq!(day_label(odd), odd);
    }
    // The calendar repeats after four centuries, and year 0 is a leap year.
    assert_eq!(day_label("0-01-01"), day_label("2000-01-01"));
    assert_eq!(day_label("0000-02-29"), "Tue");
}

#[test]
fn weather_parses_the_upstream_shape() {
    let raw = parse(
        r#"{
          "current_condition":[{"temp_C":"14","FeelsLikeC":"12",
             "weatherDesc":[{"value":"Overcast"}],"humidity":"66","windspeedKmph":"12"}],
          "nearest_area":[{"areaName":[{"value":"Berlin"}]}],
          "weather":[{"date":"2026-02-03","maxtempC":"15","mintempC":"6",
             "hourly":[{"weatherDesc":[{"value":"Cloudy"}]}]}]
        }"#,
    );
    let out = parse_weather(&raw, 3);
    assert_eq!(word(&out, "location"), "Berlin");
    assert_eq!(word(&out, "temp"), "14");
    assert_eq!(word(&out, "desc"), "Overcast");
    let day = out.get("days").unwrap().at(0).unwrap();
    assert_eq!(word(day, "day"), "Tue");
    assert_eq!(word(day, "max"), "15");
}

#[test]
fn weather_tolerates_a_minimal_document() {
    let out = parse_weather(&parse("{}"), 3);
    assert_eq!(word(&out, "temp"), "--");
    assert_eq!(items(&out, "days").len(), 0);
}

#[test]
fn fahrenheit_conversion_applies_to_current_and_forecast() {
    let raw = parse(
        r#"{"current_condition":[{"temp_C":"10","FeelsLikeC":"8",
             "weatherDesc":[{"value":"Clear"}]}],
            "weather":[{"date":"2026-02-03","maxtempC":"20","mintempC":"0",
             "hourly":[{"weatherDesc":[{"value":"Clear"}]}]}]}"#,
    );
    let out = in_units(parse_weather(&raw, 3), "f");
    assert_eq!(word(&out, "temp"), "50");
    assert_eq!(word(&out, "feels"), "46");
    let day = out.get("days").unwrap().at(0).unwrap();
    assert_eq!(word(day, "max"), "68");
    assert_eq!(word(day, "min"), "32");
    assert_eq!(word(&out, "units"), "F");
}

#[test]
fn celsius_stays_as_it_is() {
    let raw = parse(r#"{"current_condition":[{"temp_C":"10"}]}"#);
    let out = in_units(parse_weather(&raw, 0), "c");
    assert_eq!((word(&out, "temp"), word(&out, "units")), ("10", "C"));
    let out = in_units(parse_weather(&parse("{}"), 0), "f");
    assert_eq!((word(&out, "temp"), word(&out, "units")), ("--", "F"));
}

#[test]
fn the_weather_is_asked_for_by_place_and_days() {
    let q = weather_request(&widget(WidgetKind::Weather, r#"{"location":"New York","days":2}"#));
    assert_eq!(q.url, "https://wttr.in/New%20York?format=j1");
    assert_eq!((q.days, q.units.as_str()), (2, "c"));
    let other = weather_request(&widget(WidgetKind::Weather, r#"{"location":"Oslo","days":2}"#));
    assert_ne!(q.key, other.key);
    let blank = weather_request(&widget(WidgetKind::Weather, r#"{"location":"  "}"#));
    assert_eq!(blank.location, "Berlin");
}

#[test]
fn overview_counts_correctly_and_handles_empty() {
    let out = report("[]");
    assert_eq!(number(&out, "devices"), 0);
    assert!(is_null(&out, "avg_cpu"));

    let out = report(
        r#"[
        {"online":true,"stats":{"cpu":10},"containers":{"a":"running"}},
        {"online":false,"stats":{"cpu":30},"containers":{"b":"exited","c":"running"}}
    ]"#,
    );
    assert_eq!(number(&out, "online"), 1);
    assert_eq!(number(&out, "offline"), 1);
    assert_eq!(number(&out, "avg_cpu"), 20);
    assert_eq!(number(&out, "containers"), 3);
}

#[test]
fn containers_sort_running_first_and_respect_the_limit() {
    let devices = parse(
        r#"[{"id":"h","containers":{"zeta":"exited","alpha":"running","beta":"running"}}]"#,
    );
    let out = containers(&widget(WidgetKind::Containers, r#"{"limit":2}"#), &devices);
    let rows = items(&out, "items");
    assert_eq!(rows.len(), 2);
    assert_eq!(word(&rows[0], "name"), "alpha");
    assert_eq!(word(&rows[1], "name"), "beta");
}

#[test]
fn containers_running_only_filters() {
    let devices = parse(r#"[{"id":"h","containers":{"a":"running","b":"exited"}}]"#);
    let out = containers(&widget(WidgetKind::Containers, r#"{"running_only":true}"#), &devices);
    assert_eq!(items(&out, "items").len(), 1);
}

#[test]
fn links_parses_pairs_and_skips_junk() {
    let out = links(&widget(
        WidgetKind::Links,
        r#"{"items":"A|https://a.test\nno pipe here\nB|javascript:alert(1)\nC|http://c.test"}"#,
    ));
    let rows = items(&out, "items");
    assert_eq!(rows.len(), 2);
    assert_eq!(word(&rows[0], "name"), "A");
    assert_eq!(word(&rows[1], "url"), "http://c.test");
}

#[test]
fn overview_never_divides_by_zero() {
    let out = report(r#"[{"online":true,"stats":{}}]"#);
    assert!(is_null(&out, "avg_cpu"));
}

#[test]
fn every_kind_has_a_source() {
    let none = parse("[]");
    let source = |kind| data_for(&widget(kind, "{}"), &none, 0);
    assert!(matches!(source(WidgetKind::Weather), Source::Weather(_)));
    assert!(matches!(source(WidgetKind::Rss), Source::Rss(_)));
    for kind in [WidgetKind::Clock, WidgetKind::Overview, WidgetKind::Containers, WidgetKind::Links] {
        assert!(matches!(source(kind), Source::Ready(_)));
    }
    assert!(iso_now().parse::<u64>().is_ok() || !iso_now().is_empty());
}

// -- feeds -----------------------------------------------------------------

#[test]
fn feeds_are_read_in_both_dialects() {
    let rss = "<rss><channel><title>Skip</title><item><title>A &amp; B</title>\
<link>https://a.test/1</link></item><item><link>https://a.test/2</link></item></channel></rss>";
    let items = read_feed(rss, "a.test").unwrap();
    assert_eq!(items.len(), 2);
    assert_eq!((items[0].title.as_str(), items[0].link.as_str()), ("A & B", "https://a.test/1"));
    assert_eq!(items[0].feed, "a.test");
    // Without a title the first text stands in for it.
    assert_eq!((items[1].title.as_str(), items[1].link.as_str()), ("https://a.test/2", ""));
    let atom = "<feed><entry><title>T</title><link rel=\"x\" href=\"https://b.test/é\"/></entry>\
<entry></entry></feed>";
    let items = read_feed(atom, "b.test").unwrap();
    assert_eq!(items.len(), 1);
    assert_eq!(items[0].link, "https://b.test/é");
    let j = items[0].json();
    assert_eq!((word(&j, "title"), word(&j, "feed")), ("T", "b.test"));
    assert!(read_feed("<a></b>", "h").is_err());
    assert!(read_feed("", "h").unwrap().is_empty());
    // Text that runs to the end of the document.
    assert!(read_feed("x", "h").unwrap().is_empty());
    assert!(read_feed("<r><item><title>t</title></item>x", "h").unwrap().len() == 1);
    // Nothing behind the first error counts, though more could be read.
    assert!(read_feed("<r></x><item><title>t</title></item></r>", "h").is_err());
    assert_eq!(feed_host("https://a.test/x//y"), "a.test");
    assert_eq!(feed_host("nonsense"), "");
}

#[test]
fn long_titles_are_cut_and_stray_ends_ignored() {
    let events = vec![
        XmlEvent::End(b"item".to_vec()),
        XmlEvent::Start(b"item".to_vec()),
        XmlEvent::Text(Some("é".repeat(200))),
        XmlEvent::Text(Some("http://l".into())),
        XmlEvent::Other,
        XmlEvent::End(b"item".to_vec()),
        XmlEvent::Eof,
    ];
    let items = feed_from_events(&events, "h").unwrap();
    assert_eq!(items.len(), 1);
    assert_eq!(items[0].title.chars().count(), 180);
    assert_eq!(items[0].link, "http://l");
    let failed = vec![XmlEvent::Start(b"item".to_vec()), XmlEvent::Failed("bad".into())];
    assert_eq!(feed_from_events(&failed, "h").unwrap_err(), "bad");
}

#[test]
fn news_requests_keep_addresses_only() {
    let q = rss_request(&widget(
        WidgetKind::Rss,
        r#"{"feeds":" https://a.test \nftp://x\n\nhttp://b.test","limit":1}"#,
    ));
    assert_eq!(q.feeds, ["https://a.test", "http://b.test"]);
    assert_eq!(q.limit, 1);
    let items = read_feed("<r><item><title>1</title></item><item><title>2</title></item></r>", "h")
        .unwrap();
    let data = rss_data(&items, q.limit);
    assert_eq!(data.get("items").unwrap().as_array().unwrap().len(), 1);
    let more = || read_feed("<r><item><title>3</title></item></r>", "h");
    let data = rss(vec![Ok(items), Err("down".into()), more(), more()], 3);
    let titles: Vec<&str> =
        data.get("items").unwrap().as_array().unwrap().iter().map(|i| word(i, "title")).collect();
    assert_eq!(titles, ["1", "2", "3"]);
}

// -- themes ----------------------------------------------------------------

fn luminance(hex: &str) -> f32 {
    let Some((r, g, b)) = parse_hex(hex) else {
        return 0.0;
    };
    let f = |c: u8| {
        let c = c as f32 / 255.0;
        if c <= 0.03928 {
            c / 12.92
        } else {
            ((c + 0.055) / 1.055).powf(2.4)
        }
    };
    0.2126 * f(r) + 0.7152 * f(g) + 0.0722 * f(b)
}

fn contrast(a: f32, b: f32) -> f32 {
    let (hi, lo) = if a > b { (a, b) } else { (b, a) };
    (hi + 0.05) / (lo + 0.05)
}

fn ink(accent: &str, background: &str) -> String {
    let a = luminance(accent);
    let reads = contrast(a, luminance(&ground(background))) >= contrast(a, 1.0);
    readable_ink(background, reads)
}

#[test]
fn hex_parsing() {
    assert_eq!(parse_hex("#2ed573"), Some((46, 213, 115)));
    assert_eq!(parse_hex("2ed573"), Some((46, 213, 115)));
    assert_eq!(parse_hex("#fff"), None);
    assert_eq!(parse_hex("nope"), None);
    assert_eq!(parse_hex(""), None);
}

#[test]
fn rgba_formats() {
    assert_eq!(rgba("#2ed573", "0.5"), "rgba(46,213,115,0.5)");
    assert!(rgba("bad", "0.5").starts_with("rgba(127"));
    assert_eq!(format!("{}", 0.14f32), "0.14");
}

#[test]
fn ink_is_readable_on_a_variety_of_accents() {
    for accent in ["#2ed573", "#ffffff", "#000000", "#ffa502", "#64A2A3"] {
        let ink = ink(accent, "#161616");
        let ratio = contrast(luminance(accent), luminance(&ink));
        assert!(ratio >= 4.5, "{accent} -> {ink} only {ratio:.2}");
    }
}

#[test]
fn dark_ink_preferred_for_a_bright_accent() {
    assert_eq!(ink("#ffffff", "#161616"), "#161616");
}

#[test]
fn colours_are_six_digits() {
    for odd in ["#12345", "#1234567", "#12345g", "#é2345", "# 123456"] {
        assert_eq!(parse_hex(odd), None, "{odd}");
    }
    assert_eq!(parse_hex(" ##FFfF00 "), Some((255, 255, 0)));
    assert_eq!(ground("nope"), "#0f0f10");
    assert_eq!(readable_ink("nope", true), "#0f0f10");
    assert_eq!(readable_ink("#123456", false), "#ffffff");
}

#[test]
fn a_theme_becomes_a_style() {
    let mut t = ThemeColors::default();
    let style = css(&t, "#ffffff");
    assert!(style.starts_with("--bg: #0f0f10;--surface: #181819;--border: #2b2b2e;"));
    assert!(style.contains("--radius: 6px;--max-width: 70%;"));
    assert!(style.contains("--accent-soft: rgba(46,213,115,0.14);"));
    assert!(style.ends_with("--on-accent: #ffffff;"));
    assert_eq!(wallpaper(&t), None);
    t.wallpaper = "/w.png".into();
    assert_eq!(wallpaper(&t).as_deref(), Some("url(\"/w.png\")"));
}

#[test]
fn the_theme_editor_changes_one_thing() {
    let mut t = ThemeColors::default();
    t.set_color(Color::Accent, "#000000".into());
    assert_eq!((t.color(Color::Accent), t.color(Color::Danger)), ("#000000", "#ff4757"));
    t.set_size(Size::Radius, "25");
    t.set_size(Size::Width, "256");
    assert_eq!((t.size(Size::Radius), t.size(Size::Width)), (25, 0));
    for c in [Color::Bg, Color::Cards, Color::Border, Color::Text, Color::Danger, Color::Warning] {
        t.set_color(c, "x".into());
        assert_eq!(t.color(c), "x");
    }
}

// -- the browser -----------------------------------------------------------

#[test]
fn answers_are_told_apart() {
    assert_eq!(decode(200, None), None);
    assert_eq!(decode(299, None), None);
    assert_eq!(
        decode(401, Some(&parse(r#"{"error":"x"}"#))).as_deref(),
        Some("Session expired — reload to sign in again")
    );
    assert_eq!(decode(404, Some(&parse(r#"{"error":"gone"}"#))).as_deref(), Some("gone"));
    assert_eq!(decode(500, Some(&parse("[]"))).as_deref(), Some("HTTP 500"));
    assert_eq!(decode(302, None).as_deref(), Some("HTTP 302"));
    assert_eq!(decode(199, Some(&parse(r#"{"error":1}"#))).as_deref(), Some("HTTP 199"));
}

#[test]
fn addresses_are_built_from_ids() {
    assert_eq!(widget_data_url("w"), "/api/widget/w");
    assert_eq!(widget_url("w"), "/api/widgets/w");
    assert_eq!(device_url("d", Ask::Stats), "/api/devices/d/stats");
    assert_eq!(device_url("d", Ask::Power), "/api/devices/d/power");
    assert_eq!(device_url("d", Ask::Wake), "/api/devices/d/wake");
    assert_eq!(files_url("d", "/a b&c#d"), "/api/devices/d/files?path=/a%20b%26c%23d");
    assert_eq!(file_url("d", "/ü"), "/api/devices/d/file?path=/%C3%BC");
    assert_eq!(encode_path("~/a-b_c.d"), "~/a-b_c.d");
}

#[test]
fn statistics_are_shown() {
    let s = parse(
        r#"{"cpu":11,"ram_total":200,"ram_used":51,"temp":null,"uptime":"3d 0h",
            "disks":[{"mount":"/","used":1,"total":3},{"used":18446744073709551615,"total":1}, 7]}"#,
    );
    let v = stats_shown(&s);
    assert_eq!((v.cpu, v.ram.as_str(), v.ram_used, v.temp), (Some(11), "25%", 51, None));
    assert_eq!(v.uptime, "3d 0h");
    let rows: Vec<(&str, u128)> = v.disks.iter().map(|d| (d.mount.as_str(), d.percent)).collect();
    assert_eq!(rows, [("/", 33), ("", 1_844_674_407_370_955_161_500), ("", 0)]);
    let v = stats_shown(&parse(r#"{"ram_used":-3,"ram_total":2}"#));
    assert_eq!((v.ram.as_str(), v.ram_used), ("-150%", u64::MAX - 2));
    let v = stats_shown(&parse("{}"));
    assert_eq!((v.ram.as_str(), v.cpu, v.disks.len()), ("—", None, 0));
    assert_eq!(num_at(&s, "cpu"), Some(11));
}

#[test]
fn machines_are_shown_online() {
    let mut d = Device { id: "a".into(), ..Device::default() };
    let st = |id: &str, online: bool| DeviceStatus { id: id.into(), online };
    assert!(!online(&d, &vec![]));
    assert!(!online(&d, &vec![st("b", true), st("a", false)]));
    assert!(online(&d, &vec![st("a", false), st("a", true)]));
    assert_eq!(offers(&d).power.len(), 3);
    assert!(!offers(&d).wake);
    d.is_host = true;
    d.wol = Some(WolConfig { mac: String::new(), broadcast: String::new() });
    assert!(online(&d, &vec![]));
    assert!(offers(&d).power.is_empty() && offers(&d).wake);
    assert_eq!(tile_name(&d), "a");
    d.name = " ".into();
    assert_eq!(tile_name(&d), " ");
    assert_eq!(PowerAction::Suspend.name(), "suspend");
    assert_eq!(power_question(PowerAction::Shutdown, "NAS"), "Shut down NAS?");
    assert_eq!(power_question(PowerAction::Suspend, "NAS"), "Suspend NAS?");
    assert_eq!(power_question(PowerAction::Reboot, "NAS"), "Reboot NAS?");
}

#[test]
fn cards_keep_what_they_show_on_an_error() {
    let mut c = DeviceCard::new();
    assert_eq!(c.load_label(), "Load stats");
    c.started();
    assert!(c.busy);
    c.loaded(Ok(Json::whole(1)));
    assert!(!c.busy && c.error.is_none());
    c.loaded(Err("x".into()));
    assert_eq!(c.load_label(), "Refresh");
    assert_eq!(c.error.as_deref(), Some("x"));
    c.acted(Ok(()));
    assert_eq!(c.error.as_deref(), Some("x"));
    c.acted(Err("y".into()));
    assert_eq!(c.error.as_deref(), Some("y"));
}

#[test]
fn files_are_browsed() {
    let shown: Vec<(String, String)> = crumbs("/srv//media");
    assert_eq!(
        shown,
        [("srv".to_string(), "/srv".to_string()), ("media".to_string(), "/srv/media".to_string())]
    );
    assert!(crumbs("/").is_empty());
    assert_eq!(crumbs("C:/x")[0].1, "/C:");
    let entry = |is_dir| Entry {
        name: "n".into(),
        path: "/n".into(),
        is_dir,
        size: 0,
        mode: String::new(),
    };
    assert!(matches!(open(&entry(true)), Opened::Directory(p) if p == "/n"));
    assert!(matches!(open(&entry(false)), Opened::File(p) if p == "/n"));
    let mut l = Listing {
        path: "/srv/a".into(),
        root: "/srv".into(),
        parent: Some("/srv".into()),
        at_root: false,
        entries: vec![entry(true)],
    };
    assert_eq!(up(&l).as_deref(), Some("/srv"));
    l.at_root = true;
    assert_eq!(up(&l), None);
    let mut b = FileBrowser::new();
    b.started();
    b.listed(Ok(l));
    assert!(b.listing.is_some() && !b.loading);
    b.read("/f".into(), Ok("text".into()));
    assert_eq!(b.preview, Some(("/f".to_string(), "text".to_string())));
    b.read("/g".into(), Err("no".into()));
    assert_eq!(b.error.as_deref(), Some("no"));
    assert!(b.preview.is_some());
    b.listed(Err("gone".into()));
    assert!(b.listing.is_some() && b.preview.is_some());
    b.closed();
    assert!(b.preview.is_none());
}

#[test]
fn containers_offer_what_makes_sense() {
    assert_eq!(container_actions(true), [ContainerAction::Stop, ContainerAction::Restart]);
    assert_eq!(container_actions(false), [ContainerAction::Start]);
    assert_eq!(container_question(ContainerAction::Stop, "x").as_deref(), Some("Stop x?"));
    assert_eq!(container_question(ContainerAction::Restart, "x"), None);
    let c = || Container {
        device: "d".into(),
        name: "x".into(),
        status: "running".into(),
        running: true,
    };
    let mut p = ContainersPanel::new();
    p.loaded(Ok(vec![c()]));
    p.started("x".into());
    assert!(p.is_busy("x") && !p.is_busy("y"));
    p.acted(Err("no".into()), Ok(vec![c(), c()]));
    assert_eq!((p.items.len(), p.error.as_deref(), p.busy.is_none()), (2, Some("no"), true));
    p.acted(Ok(()), Err("down".into()));
    assert_eq!((p.items.len(), p.error.as_deref()), (2, Some("no")));
    p.loaded(Err("down".into()));
    assert_eq!((p.items.len(), p.error.as_deref()), (2, Some("down")));
}

#[test]
fn widgets_show_their_data() {
    let body = |kind, data: &str| render_body(kind, &parse(data));
    assert!(matches!(body(WidgetKind::Clock, r#"{"error":"x"}"#), Body::Error(e) if e == "x"));
    assert!(matches!(body(WidgetKind::Clock, r#"{"error":1}"#), Body::Clock));
    assert!(matches!(body(WidgetKind::Rss, "{}"), Body::Nothing(m) if m.starts_with("No items")));
    assert!(matches!(body(WidgetKind::Containers, "{}"), Body::Nothing("No containers to show")));
    let data = r#"{"items":[{"name":"a","status":"running","device":"h","url":"u"}, 3]}"#;
    match body(WidgetKind::Containers, data) {
        Body::Containers(rows) => {
            assert_eq!(rows[0], ("a".to_string(), "running".to_string(), "h".to_string()));
            assert!(row_runs(&rows[0]) && !row_runs(&rows[1]));
        }
        other => panic!("{other:?}"),
    }
    assert!(matches!(body(WidgetKind::Links, data), Body::Links(r) if r[0].1 == "u"));
    assert!(matches!(body(WidgetKind::Overview, "{}"), Body::Overview(c) if c[0].0 == "—"));
    let w = weather_view(&parse(r#"{"temp":"14","days":[{"day":"Tue","max":"2","min":"1"}]}"#));
    assert_eq!((w.temp.as_str(), w.units.as_str()), ("14", ""));
    assert_eq!(w.days[0].0, "Tue");
    let cells = overview_view(&parse(r#"{"online":2,"offline":"n/a","avg_cpu":1.5,"containers":[]}"#));
    let texts: Vec<&str> = cells.iter().map(|c| c.0.as_str()).collect();
    assert_eq!(texts, ["2", "n/a", "1.5", "—"]);
    assert_eq!(cells[2].1, "Avg CPU");
    assert_eq!(clock_text(7, 5, 59), "07:05:59");
    assert_eq!(str_at(&parse(r#"{"a":1}"#), "a"), "");
    assert!(rows_at(&parse(r#"{"x":1}"#), "x", "a", "b", "c").is_empty());
}

#[test]
fn widget_cards_close_only_on_success() {
    let mut c = WidgetCard::new();
    c.toggled();
    c.fetched(Ok(Json::Null));
    assert!(!c.shows_body());
    c.started();
    assert!(!c.saved(Err("x".into())));
    assert!(c.editor_open && !c.busy);
    assert!(c.saved(Ok(())));
    assert!(!c.editor_open && c.shows_body());
    c.removed(Err("y".into()));
    assert_eq!(c.error.as_deref(), Some("y"));
    c.fetched(Err("z".into()));
    assert!(c.data.is_some());
    let mut p = WidgetPicker { open: true, busy: None };
    assert!(p.started(WidgetKind::Rss));
    assert!(!p.started(WidgetKind::Clock));
    p.finished(false);
    assert!(p.open && p.busy.is_none());
    p.finished(true);
    assert!(!p.open);
    assert!(Tab::Dashboard.edits(true) && !Tab::Devices.edits(true) && !Tab::Dashboard.edits(false));
}

#[test]
fn the_editor_fills_and_reads_fields() {
    let weather = WidgetKind::Weather.spec();
    let clock = WidgetKind::Clock.spec();
    let values = parse(r#"{"location":"Oslo","days":4,"seconds":true}"#);
    let text = |f, v: &Json| match filled(f, v) {
        Filled::Text(t) => t,
        Filled::Checked(b) => b.to_string(),
    };
    assert_eq!(text(&weather.fields[0], &values), "Oslo");
    assert_eq!(text(&weather.fields[1], &values), "c");
    assert_eq!(text(&weather.fields[2], &values), "4");
    assert_eq!(text(&clock.fields[2], &values), "true");
    assert_eq!(text(&clock.fields[2], &parse(r#"{"seconds":"x"}"#)), "false");
    assert_eq!(text(&weather.fields[2], &parse(r#"{"days":"4"}"#)), "0");
    assert_eq!(current(&weather.fields[2], &parse("[]")).as_i64(), Some(3));
    for (typed, want) in [("4", 4), (" 9 ", 5), ("-1", 0), ("x", 0), ("", 0)] {
        assert_eq!(typed_number(&weather.fields[2], typed).as_i64(), Some(want), "{typed}");
    }
    assert_eq!(input_id(&weather.fields[0]), "wf-location");
    let v = put(Json::Null, "a", Json::whole(1));
    let v = put(v, "a", Json::whole(2));
    assert_eq!(number(&v, "a"), 2);
}

// -- texts and numbers -----------------------------------------------------

#[test]
fn characters_are_classed_as_in_std() {
    for c in (0..=0x10ffffu32).filter_map(char::from_u32) {
        assert_eq!(space(c), c.is_whitespace(), "{c:?}");
        assert_eq!(control(c), c.is_control(), "{c:?}");
    }
}

#[test]
fn texts_are_cut_as_in_std() {
    for s in ["", " a b ", "a\nb\r\n\nc", "\r", "x=y=z", "=", "ÄB c", "//a//"] {
        assert_eq!(trim(s), s.trim());
        assert_eq!(split_lines(s), s.lines().collect::<Vec<_>>());
        assert_eq!(split_char(s, '/'), s.split('/').collect::<Vec<_>>());
        assert_eq!(split_up_to(s, '/', 3), s.splitn(3, '/').collect::<Vec<_>>());
        let pair = |p: Option<(&str, &str)>| p.map(|(a, b)| (a.to_string(), b.to_string()));
        assert_eq!(split_once(s, '='), pair(s.split_once('=')));
        assert_eq!(rsplit_once(s, '='), pair(s.rsplit_once('=')));
        assert_eq!(to_ascii_lower(s), s.to_ascii_lowercase());
        assert_eq!(trim_start_set(s, "/"), s.trim_start_matches('/'));
        assert_eq!(trim_end_set(s, "/"), s.trim_end_matches('/'));
        assert_eq!(clip(s, 2), s.chars().take(2).collect::<String>());
        assert!(starts_with(s, "") && contains(s, ""));
    }
    assert!(contains("abcabd", "abd") && !contains("abc", "abd"));
    assert_eq!(join_strings(&vec!["a".into(), "b".into()], ", "), "a, b");
}

#[test]
fn numbers_are_read_as_in_std() {
    for s in [
        "", "+", "-", "0", "-0", "+7", "007", "9223372036854775807", "9223372036854775808",
        "-9223372036854775808", "-9223372036854775809", "18446744073709551615",
        "18446744073709551616", "1_0", " 1", "1.0", "٣",
    ] {
        assert_eq!(parse_u64(s), s.parse::<u64>().ok(), "{s:?}");
        assert_eq!(parse_i64(s), s.parse::<i64>().ok(), "{s:?}");
        assert_eq!(parse_up_to(s, 65535).map(|n| n as u16), s.parse::<u16>().ok(), "{s:?}");
    }
    assert_eq!(to_decimal(u128::MAX), u128::MAX.to_string());
    assert_eq!(to_signed_decimal(i64::MIN), i64::MIN.to_string());
    assert_eq!(to_hex(&vec![0, 255, 16]), "00ff10");
    assert_eq!(clip_bytes("aé€", 5), "aé");
    assert_eq!(clip_bytes("aé€", 6), "aé€");
}

#[test]
fn what_is_written_is_read_back() {
    for n in [0, 9, 10, 255, 65_535, u64::MAX] {
        assert_eq!(parse_u64(&to_decimal(u128::from(n))), Some(n));
    }
    for s in ["a/b", "", "/", "//x"] {
        assert_eq!(join_strings(&split_char(s, '/'), "/"), s);
    }
    let parts: Vec<String> = vec!["a".into(), String::new(), "b".into()];
    assert_eq!(split_char(&join_strings(&parts, "/"), '/'), parts);
    let odd = "a b/ü%?&#";
    let plain = encode_path(odd);
    assert!(plain.chars().all(|c| c.is_ascii_alphanumeric() || "-_.~/%".contains(c)));
    let mut bytes = Vec::new();
    let mut rest = plain.as_bytes();
    while let Some((b, tail)) = rest.split_first() {
        if *b == b'%' {
            let pair = std::str::from_utf8(&tail[..2]).unwrap();
            bytes.push(u8::from_str_radix(pair, 16).unwrap());
            rest = &tail[2..];
        } else {
            bytes.push(*b);
            rest = tail;
        }
    }
    assert_eq!(String::from_utf8(bytes).unwrap(), odd);
}

#[test]
fn sorting_is_stable_and_by_code_point() {
    assert!(text_less("a", "b") && text_less("a", "aa") && !text_less("a", "a"));
    assert!(text_less("Z", "a") && text_less("z", "é") && text_less("\u{ffff}", "\u{10000}"));
    let keys = vec![(true, "b".to_string()), (false, "z".into()), (true, "a".into()), (true, "b".into())];
    assert_eq!(sort_by_key(vec![0, 1, 2, 3], keys), [1, 2, 0, 3]);
}
