//! The configuration document and the widget registry.

use mindash::config::{
    Alerts, Config, ContainerRef, Device, DockerConfig, Link, Schedule, Settings, SshConfig, Task,
    ThemeColors,
};
use mindash::json::{Json, JsonMap, Number};
use mindash::widgets::{
    all_types, coerce_settings, defaults_for, FieldKind, Widget, WidgetKind,
};
use serde_json::Value;

fn json(v: &Value) -> Json {
    match v {
        Value::Null => Json::Null,
        Value::Bool(b) => Json::Bool(*b),
        Value::Number(n) => Json::Number(match (n.as_u64(), n.as_i64()) {
            (Some(u), _) => Number::PosInt(u),
            (None, Some(i)) => Number::NegInt(i),
            _ => Number::Float(n.to_string()),
        }),
        Value::String(s) => Json::Str(s.clone()),
        Value::Array(v) => Json::Array(v.iter().map(json).collect()),
        Value::Object(m) => Json::Object(members(m)),
    }
}

fn members(m: &serde_json::Map<String, Value>) -> JsonMap {
    let mut out = JsonMap::new();
    for (k, v) in m {
        out.insert(k, json(v));
    }
    out
}

fn parse(text: &str) -> Json {
    json(&serde_json::from_str::<Value>(text).unwrap())
}

fn text<'a>(m: &'a JsonMap, key: &str) -> &'a str {
    m.get(key).unwrap().as_str().unwrap()
}

fn number(m: &JsonMap, key: &str) -> i64 {
    m.get(key).unwrap().as_i64().unwrap()
}

/// A stored document, as far as these tests write one.
fn document(bytes: &[u8]) -> Result<Config, String> {
    let v: Value = serde_json::from_slice(bytes).map_err(|e| e.to_string())?;
    if !v.is_object() {
        return Err("not a document".to_string());
    }
    let mut cfg = Config::default();
    let s = &v["settings"];
    if let Some(accent) = s["theme"]["accent"].as_str() {
        cfg.settings.theme.accent = accent.to_string();
    }
    if let Some(order) = s["section_order"].as_array() {
        cfg.settings.section_order =
            order.iter().map(|x| x.as_str().unwrap().to_string()).collect();
    }
    for d in v["devices"].as_array().into_iter().flatten() {
        cfg.devices.push(device(d));
    }
    for w in v["widgets"].as_array().into_iter().flatten() {
        let kind = WidgetKind::from_name(w["kind"].as_str().unwrap()).unwrap();
        cfg.widgets.push(Widget::new(w["id"].as_str().unwrap(), kind));
    }
    for t in v["tasks"].as_array().into_iter().flatten() {
        cfg.tasks.push(Task {
            id: t["id"].as_str().unwrap().to_string(),
            schedule: schedule(&t["schedule"])?,
            ..Task::default()
        });
    }
    Ok(cfg)
}

fn device(d: &Value) -> Device {
    let word = |key: &str| d[key].as_str().unwrap_or("").to_string();
    let docker = d["docker"]["containers"].as_array().map(|list| DockerConfig {
        containers: list
            .iter()
            .map(|c| match c.as_str() {
                Some(name) => ContainerRef::Name(name.to_string()),
                None => ContainerRef::Full {
                    name: c["name"].as_str().unwrap().to_string(),
                    web: c["web"].as_str().unwrap_or("").to_string(),
                    rdp: String::new(),
                    vnc: String::new(),
                },
            })
            .collect(),
    });
    Device { id: word("id"), name: word("name"), docker, ..Device::default() }
}

fn schedule(s: &Value) -> Result<Schedule, String> {
    let time = s["time"].as_str().unwrap_or("").to_string();
    match s["type"].as_str() {
        Some("hourly") => Ok(Schedule::Hourly { time }),
        Some("daily") => Ok(Schedule::Daily { time }),
        Some(other) => Err(format!("unknown variant `{other}`")),
        None => Ok(Schedule::default()),
    }
}

fn load(bytes: Option<&[u8]>) -> (Config, Option<String>) {
    Config::load_or_default(bytes.map(document))
}

// -- the document -------------------------------------------------------

#[test]
fn empty_config_gets_a_host_and_seed_widgets() {
    let (cfg, warn) = load(None);
    assert!(warn.is_none());
    assert!(cfg.devices.iter().any(|d| d.is_host));
    // A fresh install should show something rather than an empty page.
    assert_eq!(cfg.widgets.len(), 4);
    assert!(cfg.widgets.iter().any(|w| w.id == "weather-default"));
}

#[test]
fn seed_widgets_are_not_added_to_an_existing_config() {
    // Someone who deliberately removed every widget must not have them
    // reappear on the next start.
    let (cfg, _) = load(Some(br#"{"widgets":[]}"#));
    assert!(cfg.widgets.is_empty());
}

#[test]
fn truncated_config_does_not_panic() {
    let (cfg, warn) = load(Some(b"{\"devices\": [{\"id\":"));
    assert!(warn.is_some(), "a corrupt file should be reported");
    assert!(cfg.devices.iter().any(|d| d.is_host));
}

#[test]
fn wrong_type_config_does_not_panic() {
    let (cfg, warn) = load(Some(b"[1,2,3]"));
    assert!(warn.is_some());
    assert!(cfg.devices.iter().any(|d| d.is_host));
}

#[test]
fn partial_config_merges_defaults() {
    let (cfg, warn) = load(Some(br#"{"devices":[{"id":"a","name":"A"}]}"#));
    assert!(warn.is_none());
    // The host is inserted at the front, so look the device up by id.
    let a = cfg.devices.iter().find(|d| d.id == "a").expect("device kept");
    assert_eq!(a.name, "A");
    assert!(cfg.devices.iter().any(|d| d.is_host), "host is re-added");
    assert_eq!(cfg.devices[0].id, "host", "host sorts first");
    // settings omitted entirely -> defaults, not zeroes
    assert_eq!(cfg.settings.theme.accent, "#2ed573");
    assert!(!cfg.settings.section_order.is_empty());
    let s = &cfg.settings;
    assert!(s.show_devices && s.show_links && s.show_quick_actions && s.show_tasks);
}

#[test]
fn explicit_settings_are_not_overwritten_by_defaults() {
    let (cfg, _) = load(Some(
        r##"{"settings":{"theme":{"accent":"#abcdef"},"section_order":["tasks"]}}"##.as_bytes(),
    ));
    assert_eq!(cfg.settings.theme.accent, "#abcdef");
    assert_eq!(cfg.settings.section_order, vec!["tasks".to_string()]);
    // ...but untouched fields still get their defaults.
    assert_eq!(cfg.settings.theme.bg, "#0f0f10");
}

#[test]
fn container_ref_accepts_both_shapes() {
    let cfg = document(
        br#"{"devices":[{"id":"h","docker":{"containers":["plex",{"name":"sonarr","web":"http://x"}]}}]}"#,
    )
    .unwrap();
    let c = cfg.devices[0].docker.as_ref().unwrap();
    assert_eq!(c.containers[0].name(), "plex");
    assert_eq!(c.containers[1].name(), "sonarr");
    assert_eq!(c.containers[1].web(), "http://x");
    assert_eq!(c.containers[0].web(), "");
}

#[test]
fn schedule_parses_and_rejects_junk() {
    let s = schedule(&serde_json::from_str(r#"{"type":"daily","time":"06:30"}"#).unwrap()).unwrap();
    assert_eq!(s.hour_minute(), (6, 30));
    // An unknown variant must not be a hard error at the document level.
    let cfg = document(br#"{"tasks":[{"id":"t","schedule":{"type":"nope"}}]}"#);
    assert!(cfg.is_err(), "unknown schedule variant is rejected cleanly");
}

#[test]
fn schedule_time_junk_falls_back() {
    let s = Schedule::Daily { time: "99:99".into() };
    assert_eq!(s.hour_minute(), (3, 0));
}

#[test]
fn what_is_no_time_of_day_falls_back() {
    for (time, want) in [
        ("", (3, 0)),
        ("7", (3, 0)),
        ("xx:30", (3, 0)),
        ("ab:45", (3, 0)),
        ("06:xx", (3, 0)),
        ("23:59", (23, 59)),
        ("24:00", (3, 0)),
        ("12:60", (3, 0)),
        ("4294967296:00", (3, 0)),
        ("08:15", (8, 15)),
        ("08:15:59", (3, 0)),
    ] {
        let s = Schedule::Weekly { time: time.into(), day: 1 };
        assert_eq!(s.hour_minute(), want, "{time:?}");
        assert_eq!(Schedule::Monthly { time: time.into(), date: 1 }.hour_minute(), want);
        assert_eq!(Schedule::Hourly { time: time.into() }.hour_minute(), want);
    }
    assert_eq!(Schedule::default(), Schedule::Daily { time: "03:00".into() });
}

#[test]
fn an_unreadable_document_says_why() {
    let (cfg, warn) = Config::load_or_default(Some(Err("EOF".to_string())));
    assert_eq!(warn.as_deref(), Some("config unreadable (EOF); started from defaults"));
    assert_eq!(cfg.devices.len(), 1);
    assert_eq!(cfg.settings.section_order, ["devices", "links", "quick_actions", "tasks"]);
    assert!(cfg.settings.show_tasks);
}

#[test]
fn a_document_with_a_host_keeps_its_devices() {
    let mut cfg = Config::default();
    cfg.devices.push(Device { id: "a".into(), ..Device::default() });
    cfg.devices.push(Device { id: "b".into(), is_host: true, ..Device::default() });
    cfg.links.push(Link { id: "l".into(), ..Link::default() });
    cfg.settings.show_devices = false;
    cfg.settings.section_order = Vec::new();
    let (cfg, warn) = Config::load_or_default(Some(Ok(cfg)));
    assert!(warn.is_none());
    assert_eq!(cfg.devices.len(), 2);
    assert_eq!(cfg.devices[0].id, "a");
    assert_eq!(cfg.links.len(), 1);
    // What a document hides stays hidden; an empty order is filled in.
    assert!(!cfg.settings.show_devices);
    assert_eq!(cfg.settings.section_order.len(), 4);
}

#[test]
fn devices_fall_back_to_usable_values() {
    let mut d = Device { id: "nas".into(), ip: " 10.0.0.2 ".into(), ..Device::default() };
    assert_eq!(d.ssh_user(), "root");
    assert_eq!(d.ssh_port(), 22);
    assert_eq!(d.files_root(), "/");
    assert_eq!(d.display_name(), "nas");
    assert!(!d.is_local());
    d.ssh = Some(SshConfig { user: "admin".into(), port: 0 });
    d.files_root = Some("  /srv  ".into());
    d.name = "NAS".into();
    assert_eq!(d.ssh_user(), "admin");
    assert_eq!(d.ssh_port(), 22);
    assert_eq!(d.files_root(), "/srv");
    assert_eq!(d.display_name(), "NAS");
    d.ssh = Some(SshConfig { user: "  ".into(), port: 2222 });
    d.files_root = Some("   ".into());
    d.name = " \t".into();
    assert_eq!(d.ssh_user(), "root");
    assert_eq!(d.ssh_port(), 2222);
    assert_eq!(d.files_root(), "/");
    assert_eq!(d.display_name(), "nas");
    d.id = String::new();
    assert_eq!(d.display_name(), "Unnamed");
    for ip in ["", " ", "127.0.0.1", "localhost", "::1", "127.9.9.9"] {
        d.ip = ip.into();
        assert!(d.is_local(), "{ip:?}");
    }
    for ip in ["10.0.0.1", "128.0.0.1", "LOCALHOST"] {
        d.ip = ip.into();
        assert!(!d.is_local(), "{ip:?}");
    }
    assert!(Device { is_host: true, ip: "10.0.0.1".into(), ..Device::default() }.is_local());
}

#[test]
fn the_defaults_are_the_documented_ones() {
    let t = ThemeColors::default();
    assert_eq!((t.bg.as_str(), t.cards.as_str(), t.border.as_str()), ("#0f0f10", "#181819", "#2b2b2e"));
    assert_eq!((t.border_radius, t.max_width_desktop, t.glass, t.blur), (6, 70, 0, 0));
    let a = Alerts::default();
    assert_eq!((a.online, a.cpu, a.ram, a.cpu_temp, a.disk_usage), (true, 90, 90, 80, 90));
    let s = Settings::default();
    assert!(s.show_devices && s.show_links && s.show_quick_actions && s.show_tasks);
    assert_eq!(s.section_order, ["devices", "links", "quick_actions", "tasks"]);
    assert_eq!(s.revision, 0);
    let h = Device::host_default();
    assert_eq!((h.id.as_str(), h.ip.as_str(), h.icon.as_str(), h.is_host), ("host", "localhost", "cpu", true));
}

// -- widgets ------------------------------------------------------------

#[test]
fn every_kind_has_a_spec_with_fields() {
    for k in WidgetKind::ALL {
        let s = k.spec();
        assert!(!s.fields.is_empty(), "{:?} has no fields", k);
        assert!(!s.title.is_empty());
        assert!(!s.icon.is_empty());
    }
}

#[test]
fn defaults_cover_every_field() {
    for k in WidgetKind::ALL {
        let d = defaults_for(k);
        assert_eq!(d.len(), k.spec().fields.len(), "{:?} defaults mismatch", k);
    }
}

#[test]
fn unknown_keys_are_dropped() {
    let out = coerce_settings(
        WidgetKind::Weather,
        &parse(r#"{ "location": "Tokyo", "evil": "x", "extra": 1 }"#),
    );
    assert_eq!(text(&out, "location"), "Tokyo");
    assert!(!out.contains_key("evil"));
    assert_eq!(out.len(), 3);
}

#[test]
fn numbers_are_clamped() {
    let out = coerce_settings(WidgetKind::Weather, &parse(r#"{ "days": 99 }"#));
    assert_eq!(number(&out, "days"), 5);
    let out = coerce_settings(WidgetKind::Weather, &parse(r#"{ "days": -4 }"#));
    assert_eq!(number(&out, "days"), 0);
    let out = coerce_settings(WidgetKind::Weather, &parse(r#"{ "days": 18446744073709551615 }"#));
    assert_eq!(number(&out, "days"), 5);
}

#[test]
fn numeric_strings_are_accepted() {
    // The browser sends a form value; it arrives as a string.
    let out = coerce_settings(WidgetKind::Rss, &parse(r#"{ "limit": "12" }"#));
    assert_eq!(number(&out, "limit"), 12);
}

#[test]
fn bad_select_falls_back_to_default() {
    let out = coerce_settings(WidgetKind::Weather, &parse(r#"{ "units": "kelvin" }"#));
    assert_eq!(text(&out, "units"), "c");
}

#[test]
fn checkbox_is_never_truthy_by_accident() {
    let out = coerce_settings(WidgetKind::Clock, &parse(r#"{ "seconds": "yes" }"#));
    assert_eq!(out.get("seconds").unwrap().as_bool(), Some(false));
}

#[test]
fn huge_text_is_truncated_on_a_char_boundary() {
    let long = "é".repeat(2000);
    let mut m = JsonMap::new();
    m.insert("location", Json::text(&long));
    let out = coerce_settings(WidgetKind::Weather, &Json::object(m));
    let s = text(&out, "location");
    assert!(s.len() <= 2000);
    assert!(s.chars().all(|c| c == 'é'), "no broken UTF-8");
    assert_eq!(s.chars().count(), 1000);
}

#[test]
fn missing_settings_become_defaults() {
    let out = coerce_settings(WidgetKind::Weather, &parse("{}"));
    assert_eq!(text(&out, "location"), "Berlin");
    assert_eq!(text(&out, "units"), "c");
    assert_eq!(number(&out, "days"), 3);
}

#[test]
fn widget_round_trips_through_json() {
    let w = Widget::new("weather-1", WidgetKind::Weather);
    let s = mindash::api::widget_json(&w);
    let back = Widget {
        id: s.get("id").unwrap().as_str().unwrap().to_string(),
        kind: WidgetKind::from_name(s.get("kind").unwrap().as_str().unwrap()).unwrap(),
        title: s.get("title").unwrap().as_str().unwrap().to_string(),
        icon: s.get("icon").unwrap().as_str().unwrap().to_string(),
        settings: s.get("settings").unwrap().as_object().unwrap().dup(),
    };
    assert_eq!(back.kind, WidgetKind::Weather);
    assert_eq!(back.get_str("location"), "Berlin");
}

#[test]
fn text_is_cut_only_where_it_is_too_long() {
    for (n, want) in [(1999, 1999), (2000, 2000), (2001, 2000)] {
        let mut m = JsonMap::new();
        m.insert("feeds", Json::text(&"a".repeat(n)));
        let out = coerce_settings(WidgetKind::Rss, &Json::object(m));
        assert_eq!(text(&out, "feeds").len(), want);
    }
    // One byte short of a three-byte character.
    let mut m = JsonMap::new();
    m.insert("feeds", Json::text(&format!("{}€", "a".repeat(1999))));
    let out = coerce_settings(WidgetKind::Rss, &Json::object(m));
    assert_eq!(text(&out, "feeds"), "a".repeat(1999));
}

#[test]
fn numbers_that_are_none_fall_back() {
    for raw in ["null", "\"x\"", "[1]", "1.5", "true", "\"99999999999999999999\""] {
        let out = coerce_settings(WidgetKind::Rss, &parse(&format!("{{\"limit\": {raw}}}")));
        assert_eq!(number(&out, "limit"), 8, "{raw}");
    }
    for (raw, want) in [("\" 7 \"", 7), ("\"-3\"", 1), ("\"+9\"", 9), ("0", 1), ("31", 30), ("18446744073709551615", 30)] {
        let out = coerce_settings(WidgetKind::Rss, &parse(&format!("{{\"limit\": {raw}}}")));
        assert_eq!(number(&out, "limit"), want, "{raw}");
    }
}

#[test]
fn settings_that_are_no_object_become_the_defaults() {
    for raw in ["null", "[]", "3", "\"x\""] {
        let out = coerce_settings(WidgetKind::Clock, &parse(raw));
        assert_eq!(out.len(), 4, "{raw}");
        assert_eq!(text(&out, "format"), "24");
        assert_eq!(out.get("date").unwrap().as_bool(), Some(true));
    }
}

#[test]
fn coercing_twice_changes_nothing() {
    for (kind, raw) in [
        (WidgetKind::Weather, r#"{"location":"Oslo","days":"9","units":"f","x":1}"#),
        (WidgetKind::Links, r#"{"items":7}"#),
        (WidgetKind::Overview, r#"{"show_cpu":false}"#),
    ] {
        let once = coerce_settings(kind, &parse(raw));
        let twice = coerce_settings(kind, &Json::object(once.dup()));
        assert_eq!(format!("{once:?}"), format!("{twice:?}"));
    }
}

#[test]
fn the_registry_names_every_kind() {
    let types = all_types();
    assert_eq!(types.len(), 6);
    for (t, k) in types.iter().zip(WidgetKind::ALL) {
        assert_eq!(t.kind, k);
        assert_eq!(WidgetKind::from_name(k.as_str()), Some(k));
    }
    assert_eq!(WidgetKind::from_name("Weather"), None);
    let weather = WidgetKind::Weather.spec();
    assert_eq!(weather.fields[1].kind, FieldKind::Select);
    assert_eq!(weather.fields[1].options, [("c", "Celsius"), ("f", "Fahrenheit")]);
    assert_eq!((weather.fields[2].min, weather.fields[2].max), (Some(0), Some(5)));
}

#[test]
fn a_widget_resolves_its_title_and_settings() {
    let mut w = Widget::new("w", WidgetKind::Clock);
    w.title = String::new();
    w.icon = String::new();
    assert_eq!(w.resolved_title(), WidgetKind::Clock.spec().title);
    assert_eq!(w.resolved_icon(), WidgetKind::Clock.spec().icon);
    w.title = "Mine".into();
    w.icon = "sun".into();
    assert_eq!(w.resolved_title(), "Mine");
    assert_eq!(w.resolved_icon(), "sun");
    assert!(w.get_bool("date") && !w.get_bool("seconds") && !w.get_bool("nope"));
    assert_eq!(w.get_str("nope"), "");
    assert_eq!(w.get_i64("nope"), 0);
    let copy = w.dup();
    assert_eq!(format!("{copy:?}"), format!("{w:?}"));
}

// -- objects ------------------------------------------------------------

#[test]
fn objects_keep_their_keys_sorted_and_single() {
    let mut m = JsonMap::new();
    for (k, n) in [("b", 1), ("a", 2), ("c", 3), ("b", 4)] {
        m.insert(k, Json::whole(n));
    }
    assert_eq!(m.len(), 3);
    let keys: Vec<&str> = m.entries.iter().map(|(k, _)| k.as_str()).collect();
    assert_eq!(keys, ["a", "b", "c"]);
    assert_eq!(number(&m, "b"), 4);
    assert_eq!(number(&m, "a"), 2);
    assert!(m.get("d").is_none());
}

#[test]
fn numbers_read_as_what_they_are() {
    assert_eq!(Json::whole(-5).as_i64(), Some(-5));
    assert_eq!(Json::whole(-5).as_u64(), None);
    assert_eq!(Json::count(u64::MAX).as_i64(), None);
    assert_eq!(Json::count(u64::MAX).as_u64(), Some(u64::MAX));
    assert_eq!(parse("1.5").as_i64(), None);
    assert_eq!(Number::Float("1.5".into()).text(), "1.5");
    assert_eq!(Number::NegInt(-12).text(), "-12");
    assert_eq!(Number::PosInt(12).text(), "12");
    assert_eq!(parse("[1,2]").at(1).unwrap().as_i64(), Some(2));
    assert!(parse("[1,2]").at(2).is_none());
}
