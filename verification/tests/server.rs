//! Sessions, requests and the control plane.

use std::sync::{Arc, Mutex};

use base64::Engine;
use mindash::access::{decide, path_is_public, refuse, require_session, served_openly, PUBLIC_PREFIXES};
use mindash::api::{
    create_at, create_widget, created_reply, delete_widget, deleted_reply, device_status,
    device_statuses, find_widget, get_config, health, put_config, put_reply, stamp, stream,
    update_widget, updated_reply, version, widget_data, widget_types, NewWidget, WidgetPatch,
};
use mindash::auth::{
    hash_password, hash_with, issue_at, issue_session, login, logout, random_secret,
    session_from_cookie, sign, verify_at, verify_password, verify_session, LoginRequest,
    ITERATIONS, SESSION_TTL_SECS,
};
use mindash::cli::{accept_password, parse_args, Action};
use mindash::clock::{counted, micros_now, secs_now, whole_seconds};
use mindash::config::{
    Config, ContainerRef, Device, DockerConfig, Link, SshConfig, WolConfig,
};
use mindash::control::{
    container_control, container_reply, containers_available, containers_list, data_reply,
    device_by_id, device_power, device_stats, device_wake, devices_status, entry_json, files_list,
    files_read, power_reply, stats_fallback, target_for, wake_reply, ContainerBody, PathQuery,
    PowerBody,
};
use mindash::errors::{ExecError, FileError, Limit, NetError};
use mindash::json::{Json, JsonMap};
use mindash::listing::FileEntry;
use mindash::net::{
    container_action, container_states, magic_packet, parse_mac, run, tcp_address,
    valid_container_name, wake_on_lan, ContainerAction,
};
use mindash::reply::Reply;
use mindash::shell::{Finished, PowerAction};
use mindash::state::{backup_name, AppState, Cache};
use mindash::widgets::{Widget, WidgetKind};

fn url64(data: &[u8]) -> String {
    base64::engine::general_purpose::URL_SAFE_NO_PAD.encode(data)
}

fn state() -> AppState {
    let (cfg, _) = Config::load_or_default(None);
    AppState::new(cfg, None, None).0
}

fn body(r: &Reply) -> &Json {
    r.body.as_ref().unwrap()
}

fn error(r: &Reply) -> &str {
    assert_eq!(body(r).get("success").unwrap().as_bool(), Some(false));
    body(r).get("error").unwrap().as_str().unwrap()
}

fn succeeded(r: &Reply) -> bool {
    r.status < 300 && body(r).get("success").unwrap().as_bool() == Some(true)
}

fn word<'a>(v: &'a Json, key: &str) -> &'a str {
    v.get(key).unwrap().as_str().unwrap()
}

fn finished(success: bool, stdout: &str, stderr: &str) -> Finished {
    Finished {
        success,
        status: "exit status: 2".to_string(),
        stdout: stdout.as_bytes().to_vec(),
        stderr: stderr.as_bytes().to_vec(),
    }
}

// -- passwords and sessions ---------------------------------------------

#[test]
fn password_round_trip() {
    let h = hash_password("correct horse battery staple");
    assert!(verify_password("correct horse battery staple", &h));
    assert!(!verify_password("wrong", &h));
}

#[test]
fn same_password_yields_different_hashes() {
    let a = hash_password("same");
    let b = hash_password("same");
    assert_ne!(a, b, "salt must be random per hash");
    assert!(verify_password("same", &a) && verify_password("same", &b));
}

#[test]
fn hash_format_is_self_describing() {
    let h = hash_password("x");
    let parts: Vec<_> = h.split('$').collect();
    assert_eq!(parts.len(), 5);
    assert_eq!(parts[0], "pbkdf2");
    assert_eq!(parts[1], "sha256");
    assert_eq!(parts[2], ITERATIONS.to_string());
}

#[test]
fn malformed_hashes_are_rejected_not_panicking() {
    for bad in [
        "",
        ":",
        "garbage",
        "pbkdf2$sha256$notanumber$aa$bb",
        "pbkdf2$sha256$1000$!!!$!!!",
        "pbkdf2$md5$1000$aa$bb",
        "pbkdf2$sha256$1000$aa",
        "$$$$",
    ] {
        assert!(!verify_password("x", bad), "{bad:?} should be rejected");
    }
}

#[test]
fn session_round_trip() {
    let secret = random_secret();
    let token = issue_session(secret.as_bytes());
    assert!(verify_session(&token, secret.as_bytes()));
}

#[test]
fn session_rejects_a_different_secret() {
    let token = issue_session(b"secret-one");
    assert!(!verify_session(&token, b"secret-two"));
}

#[test]
fn session_rejects_tampering() {
    let secret = random_secret();
    let token = issue_session(secret.as_bytes());
    let (payload, sig) = token.split_once('.').unwrap();

    // Forged timestamp with the original signature.
    let forged = format!("{}.{}", url64(b"9999999999"), sig);
    assert!(!verify_session(&forged, secret.as_bytes()));

    // Corrupted signature.
    let mut broken = sig.to_string();
    broken.push('x');
    assert!(!verify_session(&format!("{payload}.{broken}"), secret.as_bytes()));
}

#[test]
fn session_rejects_expired_and_future() {
    let secret = b"k";
    let now = std::time::SystemTime::now()
        .duration_since(std::time::UNIX_EPOCH)
        .unwrap()
        .as_secs();
    let old = url64((now - SESSION_TTL_SECS - 10).to_string().as_bytes());
    let future = url64((now + 10_000).to_string().as_bytes());
    for payload in [old, future] {
        let token = format!("{payload}.{}", sign(&payload, secret));
        assert!(!verify_session(&token, secret), "{payload} should be rejected");
    }
}

#[test]
fn session_rejects_junk_shapes() {
    let secret = b"k";
    for bad in ["", ".", "no-dot", "a.b.c", "!!!.???"] {
        assert!(!verify_session(bad, secret), "{bad:?} should be rejected");
    }
}

#[test]
fn cookie_parsing_picks_the_right_one() {
    assert_eq!(
        session_from_cookie("other=1; mindash_session=abc.def; x=2").as_deref(),
        Some("abc.def")
    );
    assert_eq!(session_from_cookie("nothing=here"), None);
}

#[test]
fn known_hashes_verify() {
    // PBKDF2-HMAC-SHA256 of "password" with the salt "salt", one round.
    let key = [
        0x12, 0x0f, 0xb6, 0xcf, 0xfc, 0xf8, 0xb3, 0x2c, 0x43, 0xe7, 0x22, 0x52, 0x56, 0xc4, 0xf8,
        0x37, 0xa8, 0x65, 0x48, 0xc9, 0x2c, 0xcc, 0x35, 0x48, 0x08, 0x05, 0x98, 0x7c, 0xb7, 0x0b,
        0xe1, 0x7b,
    ];
    let stored = format!("pbkdf2$sha256$1${}${}", url64(b"salt"), url64(&key));
    assert_eq!(hash_with("password", b"salt", 1), stored);
    assert!(verify_password("password", &stored));
    assert!(!verify_password("Password", &stored));
    // The number of rounds is read from the hash.
    let more = hash_with("password", b"salt", 2);
    assert_ne!(more, stored);
    assert!(verify_password("password", &more));
    // What follows the key spoils the hash.
    assert!(!verify_password("password", &format!("{stored}$x")));
    assert!(!verify_password("password", &format!("{stored}$")));
    // Another salt gives another hash.
    assert_ne!(hash_with("password", b"salz", 1), stored);
    // An empty key matches nothing.
    assert!(!verify_password("password", "pbkdf2$sha256$1$$"));
}

#[test]
fn known_signatures_match() {
    // HMAC-SHA256 of "what do ya want for nothing?" under the key "Jefe".
    let tag = [
        0x5b, 0xdc, 0xc1, 0x46, 0xbf, 0x60, 0x75, 0x4e, 0x6a, 0x04, 0x24, 0x26, 0x08, 0x95, 0x75,
        0xc7, 0x5a, 0x00, 0x3f, 0x08, 0x9d, 0x27, 0x39, 0x83, 0x9d, 0xec, 0x58, 0xb9, 0x64, 0xec,
        0x38, 0x43,
    ];
    assert_eq!(sign("what do ya want for nothing?", b"Jefe"), url64(&tag));
}

#[test]
fn a_session_is_good_for_its_time_only() {
    let token = issue_at(1000, b"k");
    for (now, good) in [
        (999, false),
        (1000, true),
        (1000 + SESSION_TTL_SECS - 1, true),
        (1000 + SESSION_TTL_SECS, false),
    ] {
        assert_eq!(verify_at(&token, b"k", now), good, "{now}");
    }
    let (payload, _) = token.split_once('.').unwrap();
    assert_eq!(payload, url64(b"1000"));
}

#[test]
fn secrets_are_long_and_random() {
    let (a, b) = (random_secret(), random_secret());
    assert_ne!(a, b);
    assert_eq!(a.len(), 64);
    assert!(a.chars().all(|c| c.is_ascii_hexdigit() && !c.is_ascii_uppercase()));
}

#[test]
fn the_clock_is_read() {
    let now = std::time::SystemTime::now()
        .duration_since(std::time::UNIX_EPOCH)
        .unwrap()
        .as_secs();
    assert!(secs_now() - now <= 2);
    assert_eq!(whole_seconds(1_999_999), 1);
    assert_eq!(counted(Some(1_999_999)), 1_999_999);
    assert_eq!(counted(None), 0);
    assert!(micros_now() / 1_000_000 - u128::from(now) <= 2);
}

#[test]
fn signing_in_and_out() {
    let mut s = state();
    s.set_password(hash_with("hunter2!", b"salt", 1));
    let wrong = login(&s, &LoginRequest { password: "nope".into() });
    assert_eq!((wrong.status, error(&wrong)), (401, "Invalid password"));
    assert!(wrong.headers.is_empty());

    let right = login(&s, &LoginRequest { password: "hunter2!".into() });
    assert!(succeeded(&right));
    let (name, cookie) = &right.headers[0];
    assert_eq!(name, "set-cookie");
    assert!(cookie.ends_with("; Path=/; HttpOnly; SameSite=Strict; Max-Age=2592000"));
    let sent = cookie.split(';').next().unwrap();
    assert!(require_session(&s, "/api/config", Some(sent)).is_none());

    let out = logout();
    assert!(succeeded(&out));
    let cleared = &out.headers[0].1;
    assert_eq!(cleared, "mindash_session=; Path=/; HttpOnly; SameSite=Strict; Max-Age=0");
    let sent = cleared.split(';').next().unwrap();
    assert_eq!(require_session(&s, "/api/config", Some(sent)).unwrap().status, 401);
}

#[test]
fn signing_in_does_not_tell_whether_a_password_is_set() {
    let mut s = state();
    let none = login(&s, &LoginRequest { password: "anything".into() });
    assert_eq!(none.status, 401);
    assert!(none.headers.is_empty());
    s.set_password(hash_with("hunter2!", b"salt", 1));
    let wrong = login(&s, &LoginRequest { password: "anything".into() });
    assert_eq!(none.status, wrong.status);
    assert_eq!(format!("{:?}", none.body), format!("{:?}", wrong.body));
}

#[test]
fn without_a_password_everything_is_open() {
    let s = state();
    assert!(s.verify_password("anything"));
    assert!(require_session(&s, "/", None).is_none());
}

// -- who may see what ----------------------------------------------------

#[test]
fn public_prefixes_match_whole_segments() {
    for (path, prefix) in [
        ("/login", "/login"),
        ("/login/", "/login"),
        ("/assets/mindash-web.js", "/assets"),
        ("/icon.svg", "/icon.svg"),
        ("/manifest.webmanifest", "/manifest.webmanifest"),
        ("/favicon.ico", "/favicon.ico"),
    ] {
        assert!(path_is_public(path, prefix), "{path} should match {prefix}");
    }
}

#[test]
fn the_login_endpoint_is_not_treated_as_the_login_page() {
    assert!(!path_is_public("/api/auth/login", "/login"));
    assert!(!path_is_public("/api/auth/logout", "/login"));
    // Nor should a sibling path with a shared prefix sneak through.
    assert!(!path_is_public("/assets-evil/x", "/assets"));
    assert!(!path_is_public("/loginfoo", "/login"));
}

#[test]
fn the_login_endpoint_is_reachable_without_a_session() {
    // It has to be: it is the route that issues the session.
    assert!(
        PUBLIC_PREFIXES.iter().any(|p| path_is_public("/api/auth/login", p)),
        "/api/auth/login must be public or nobody can sign in"
    );
}

#[test]
fn requests_without_a_session_are_answered_by_kind() {
    let mut s = state();
    s.set_password(hash_with("hunter2!", b"salt", 1));
    let api = require_session(&s, "/api/config", None).unwrap();
    assert_eq!((api.status, error(&api)), (401, "Unauthorized"));
    let page = require_session(&s, "/", Some("mindash_session=forged")).unwrap();
    assert_eq!(page.status, 302);
    assert_eq!(page.headers, [("location".to_string(), "/login".to_string())]);
    assert!(page.body.is_none());
    assert!(require_session(&s, "/api/auth/login", None).is_none());
    // "/api" itself is no API path.
    assert_eq!(refuse("/api").status, 302);
    assert!(decide(true, "/x", true).is_none());
    assert!(decide(false, "/x", false).is_none());
    assert_eq!(decide(true, "/api/x", false).unwrap().status, 401);
    for p in ["/login", "/assets/x", "/icon.svg", "/favicon.ico", "/manifest.webmanifest"] {
        assert!(served_openly(p), "{p}");
    }
    for p in ["/", "/api/config", "/loginx", "/icon.svgx", ""] {
        assert!(!served_openly(p), "{p}");
    }
}

// -- network -------------------------------------------------------------

#[test]
fn mac_parsing_accepts_common_formats() {
    let expected = [0xaa, 0xbb, 0xcc, 0xdd, 0xee, 0xff];
    for s in [
        "aa:bb:cc:dd:ee:ff",
        "AA:BB:CC:DD:EE:FF",
        "aa-bb-cc-dd-ee-ff",
        "aabbccddeeff",
        "aa:bb:cc:dd:ee:ff ",
    ] {
        assert_eq!(parse_mac(s).unwrap(), expected, "{s}");
    }
}

#[test]
fn mac_parsing_rejects_junk() {
    for s in ["", "zz:bb:cc:dd:ee:ff", "aa:bb:cc:dd:ee", "aa:bb:cc:dd:ee:ff:00", "not a mac"] {
        assert!(parse_mac(s).is_err(), "{s:?} should be rejected");
    }
}

#[test]
fn magic_packet_is_102_bytes_and_correct() {
    let mac = [1, 2, 3, 4, 5, 6];
    let p = magic_packet(mac);
    assert_eq!(p.len(), 102);
    assert_eq!(&p[..6], &[0xFF; 6]);
    for i in 0..16 {
        assert_eq!(&p[6 + i * 6..12 + i * 6], &mac[..]);
    }
}

#[test]
fn wake_rejects_a_bad_broadcast() {
    let e = wake_on_lan("aa:bb:cc:dd:ee:ff", "not-an-ip", false).unwrap_err();
    assert_eq!(e.message(), "invalid broadcast address: not-an-ip");
}

#[test]
fn wake_rejects_a_bad_mac() {
    let e = wake_on_lan("nope", "255.255.255.255", true).unwrap_err();
    assert_eq!(e.message(), "invalid MAC address: nope");
}

#[test]
fn a_wake_packet_goes_to_two_ports() {
    let w = wake_on_lan("01:02:03:04:05:06", "255.255.255.255", true).unwrap();
    assert_eq!(w.packet, magic_packet([1, 2, 3, 4, 5, 6]));
    assert_eq!(w.ports, [9, 7]);
    assert_eq!(tcp_address("10.0.0.1", 22), "10.0.0.1:22");
}

#[test]
fn container_names_follow_docker_rules() {
    for good in ["plex", "my-app_1", "a", "A1.b-c_d"] {
        assert!(valid_container_name(good), "{good} should be valid");
    }
    for bad in [
        "",
        "-leading",
        ".leading",
        "has space",
        "semi;colon",
        "dollar$sign",
        "back`tick",
        "new\nline",
        "slash/name",
        "../../etc/passwd",
        "$(whoami)",
        ";rm -rf /",
    ] {
        assert!(!valid_container_name(bad), "{bad:?} should be rejected");
    }
}

#[test]
fn container_names_are_length_bounded() {
    assert!(valid_container_name(&"a".repeat(128)));
    assert!(!valid_container_name(&"a".repeat(129)));
}

#[test]
fn run_reports_a_missing_binary_without_panicking() {
    let program = "mindash-definitely-not-a-real-binary";
    let err = run(program, Some(Err("No such file or directory".to_string())));
    assert!(err.is_err());
    assert_eq!(run("docker", None).unwrap_err().message(), "docker timed out");
    assert_eq!(
        run("docker", Some(Ok(finished(false, "", "")))).unwrap_err().message(),
        "docker exited with exit status: 2"
    );
    assert_eq!(run("docker", Some(Ok(finished(true, " a\n", "")))).unwrap(), "a");
}

#[test]
fn container_actions_map_to_the_right_verbs() {
    assert_eq!(ContainerAction::Start.verb(), "start");
    assert_eq!(ContainerAction::Stop.verb(), "stop");
    assert_eq!(ContainerAction::Restart.verb(), "restart");
}

#[test]
fn container_actions_deserialise_from_lowercase_only() {
    let read =
        |json: &str| ContainerAction::from_name(&serde_json::from_str::<String>(json).unwrap());
    for (json, want) in [
        ("\"start\"", ContainerAction::Start),
        ("\"stop\"", ContainerAction::Stop),
        ("\"restart\"", ContainerAction::Restart),
    ] {
        assert_eq!(read(json), Some(want));
    }
    // Arbitrary commands are not expressible.
    for bad in ["\"rm\"", "\"exec\"", "\"start; rm -rf /\"", "\"START\""] {
        assert!(read(bad).is_none(), "{bad}");
    }
}

#[test]
fn container_action_rejects_a_hostile_name_before_running_anything() {
    for bad in ["a; rm -rf /", "$(id)", "a b", "", "../x"] {
        let err = container_action(bad, ContainerAction::Restart);
        assert!(err.is_err(), "{bad:?} must be rejected");
        let msg = err.unwrap_err().message();
        assert!(msg.contains("invalid container name"), "{msg}");
    }
    assert_eq!(container_action("plex", ContainerAction::Stop).unwrap(), ["stop", "plex"]);
}

#[test]
fn states_come_from_rows() {
    let m = container_states("plex:Running\nno colon\nsonarr:Exited:x\nplex:paused\n");
    let shown: Vec<(&str, &str)> =
        m.entries.iter().map(|(k, v)| (k.as_str(), v.as_str().unwrap())).collect();
    assert_eq!(shown, [("plex", "paused"), ("sonarr", "exited:x")]);
}

// -- state ---------------------------------------------------------------

#[test]
fn fresh_state_has_a_host_and_a_secret() {
    let s = state();
    assert!(s.config().devices.iter().any(|d| d.is_host));
    assert!(!s.auth_enabled(), "auth is off until a password is set");
    let token = s.issue_session();
    assert!(s.verify_session(&token));
}

#[test]
fn password_round_trips() {
    let mut s = state();
    s.set_password(hash_password("hunter2"));
    assert!(s.auth_enabled());
    assert!(s.verify_password("hunter2"));
    assert!(!s.verify_password("hunter3"));
}

#[test]
fn concurrent_updates_all_land() {
    let s = Arc::new(Mutex::new(state()));
    let runtime = tokio::runtime::Builder::new_multi_thread().worker_threads(4).build().unwrap();
    let mut handles = Vec::new();
    for i in 0..32 {
        let s = s.clone();
        handles.push(runtime.spawn(async move {
            let mut s = s.lock().unwrap();
            s.update_config(|mut c| {
                c.links.push(Link { id: format!("l{i}"), ..Link::default() });
                (c, ())
            });
            s.stored(true);
        }));
    }
    for h in handles {
        runtime.block_on(h).unwrap();
    }
    let s = s.lock().unwrap();
    assert_eq!(s.config().links.len(), 32);
    assert_eq!(s.revision(), 33);
}

#[test]
fn revision_advances_only_on_write() {
    let mut s = state();
    let r0 = s.revision();
    s.stored(false);
    assert_eq!(s.revision(), r0);
    let before = s.update_config(|mut c| {
        let before = c.onboarding_done;
        c.onboarding_done = true;
        (c, before)
    });
    assert!(!before && s.config().onboarding_done);
    assert_eq!(s.revision(), r0);
    s.stored(true);
    assert!(s.revision() > r0);
    // Behind the largest count it starts over.
    s.revision = u64::MAX;
    s.stored(true);
    assert_eq!(s.revision(), 0);
}

#[test]
fn corrupt_config_is_reported_and_backed_up() {
    let parsed = serde_json::from_slice::<serde_json::Value>(b"{\"devices\":[{\"id\":");
    let (cfg, warn) = Config::load_or_default(Some(Err(parsed.unwrap_err().to_string())));
    assert!(warn.is_some());
    let (s, _) = AppState::new(cfg, None, None);
    assert!(s.config().devices.iter().any(|d| d.is_host));
    let backup = backup_name(1_700_000_000);
    assert!(backup.contains("broken"), "the bad file is preserved for inspection");
    assert_eq!(backup, "config.json.broken-1700000000");
}

#[test]
fn a_stored_secret_is_trimmed_and_kept() {
    let (s, fresh) = AppState::new(Config::default(), None, Some(" abc \n".into()));
    assert_eq!(s.session_secret.as_deref(), Some(&b"abc"[..]));
    assert!(fresh.is_none());
    let (s, fresh) = AppState::new(Config::default(), None, None);
    assert_eq!(s.session_secret.as_deref(), fresh.as_ref().map(|t| t.as_bytes()));
    let mut s = s;
    s.session_secret = None;
    assert!(!s.verify_session("x.y"));
    assert_eq!(s.section_order().len(), 4);
}

#[test]
fn the_cache_holds_each_key_once() {
    let mut c = Cache::new();
    for i in 0..3 {
        c.store("a", i, &Json::whole(1));
        c.store("b", i, &Json::whole(2));
        let _ = c.settle("a", i, Ok(Json::whole(3)));
    }
    assert_eq!(c.entries.len(), 2);
    c.remove("a");
    assert_eq!(c.entries.len(), 1);
    assert!(c.lookup("a", 3, 10).is_none());
}

#[test]
fn a_session_holds_for_its_secret_and_its_time() {
    let token = issue_at(1000, b"secret-one");
    assert!(verify_at(&token, b"secret-one", 1000));
    assert!(!verify_at(&token, b"secret-two", 1000));
    assert!(!verify_at(&format!("{token}x"), b"secret-one", 1000));
    assert!(!verify_at(&token, b"secret-one", 1000 + 2_592_000));
    for bad in ["", ".", "no-dot", "a.b.c", "!!!.???", ".x", "x."] {
        assert!(!verify_at(bad, b"secret-one", 1000), "{bad}");
    }
}

#[test]
fn the_cache_serves_fresh_values_and_falls_back_on_stale_ones() {
    let mut c = Cache::new();
    assert!(c.lookup("k", 0, 10).is_none());
    let mut m = JsonMap::new();
    m.insert("v", Json::whole(1));
    c.store("k", 100, &Json::object(m));
    c.store("other", 100, &Json::whole(2));
    assert!(c.lookup("k", 109, 10).is_some());
    assert!(c.lookup("k", 110, 10).is_none());
    let stale = c.fallback("k", "down");
    assert_eq!(stale.get("v").unwrap().as_i64(), Some(1));
    assert_eq!(stale.get("stale").unwrap().as_bool(), Some(true));
    let none = c.fallback("missing", "down");
    assert_eq!(word(&none, "error"), "down");
    c.store("k", 200, &Json::whole(3));
    assert_eq!(c.lookup("k", 201, 10).unwrap().as_i64(), Some(3));
    assert_eq!(c.settle("k", 202, Ok(Json::whole(4))).as_i64(), Some(4));
    assert_eq!(c.lookup("k", 203, 10).unwrap().as_i64(), Some(4));
    assert_eq!(c.settle("k", 300, Err("down".into())).as_i64(), Some(4));
    assert!(c.lookup("k", 301, 10).is_none());
    c.remove("k");
    assert!(c.lookup("k", 203, 10).is_none());
    assert_eq!(c.lookup("other", 101, 10).unwrap().as_i64(), Some(2));
}

// -- the JSON API ----------------------------------------------------------

#[test]
fn widgets_are_added_changed_and_removed() {
    let (mut cfg, _) = Config::load_or_default(None);
    let made = create_at(
        &mut cfg,
        &NewWidget { kind: WidgetKind::Clock, settings: Json::Null },
        123_456,
    );
    assert_eq!(word(&made, "id"), "clock-123456");
    assert_eq!(cfg.widgets.len(), 5);
    let reply = created_reply(made, Ok(()));
    assert_eq!(reply.status, 201);
    assert_eq!(word(body(&reply).get("widget").unwrap(), "kind"), "clock");
    assert_eq!(find_widget(&cfg.widgets, "clock-123456"), Some(4));
    assert_eq!(find_widget(&cfg.widgets, "nope"), None);

    let mut settings = JsonMap::new();
    settings.insert("format", Json::text("12"));
    settings.insert("junk", Json::text("x"));
    let patch = WidgetPatch {
        settings: Some(Json::object(settings)),
        title: Some(format!("  {}  ", "é".repeat(70))),
    };
    let changed = update_widget(&mut cfg, "clock-123456", &patch).unwrap();
    assert_eq!(word(changed.get("settings").unwrap(), "format"), "12");
    assert!(changed.get("settings").unwrap().get("junk").is_none());
    assert_eq!(cfg.widgets[4].title, "é".repeat(60));
    let blank = WidgetPatch { settings: None, title: Some("   ".into()) };
    update_widget(&mut cfg, "clock-123456", &blank).unwrap();
    assert_eq!(cfg.widgets[4].title, "é".repeat(60));
    assert_eq!(updated_reply(Some(changed), Ok(())).status, 200);
    assert!(update_widget(&mut cfg, "nope", &blank).is_none());
    let missing = updated_reply(None, Ok(()));
    assert_eq!((missing.status, error(&missing)), (404, "Widget not found"));

    assert!(delete_widget(&mut cfg, "clock-123456"));
    assert!(!delete_widget(&mut cfg, "clock-123456"));
    assert_eq!(cfg.widgets.len(), 4);
    assert!(succeeded(&deleted_reply(true, Ok(()))));
    assert_eq!(deleted_reply(false, Ok(())).status, 404);
    for r in [
        deleted_reply(true, Err("disk".into())),
        updated_reply(None, Err("disk".into())),
        created_reply(Json::Null, Err("disk".into())),
    ] {
        assert_eq!((r.status, error(&r)), (500, "disk"));
    }
}

#[test]
fn new_widgets_get_ids_from_the_clock() {
    let mut cfg = Config::default();
    let made = create_widget(&mut cfg, &NewWidget { kind: WidgetKind::Rss, settings: Json::Null });
    let digits = word(&made, "id").strip_prefix("rss-").unwrap().to_string();
    assert!(digits.parse::<u128>().unwrap() <= micros_now());
    assert_eq!(made.get("settings").unwrap().get("limit").unwrap().as_i64(), Some(8));
}

#[test]
fn replies_about_the_whole() {
    let v = version();
    assert_eq!(word(body(&v), "name"), "MinDash");
    assert_eq!(word(body(&v), "version"), "1.0.0");
    let (cfg, _) = Config::load_or_default(None);
    let h = health(&cfg, 7, 3);
    assert_eq!(body(&h).get("uptime_secs").unwrap().as_u64(), Some(7));
    assert_eq!(body(&h).get("devices").unwrap().as_u64(), Some(1));
    assert_eq!(body(&h).get("widgets").unwrap().as_u64(), Some(4));
    assert_eq!(body(&h).get("revision").unwrap().as_u64(), Some(3));
    let t = widget_types();
    let types = body(&t).get("types").unwrap().as_array().unwrap();
    assert_eq!(types.len(), 6);
    let units = types[0].get("fields").unwrap().at(1).unwrap();
    assert_eq!(word(units, "kind"), "select");
    assert_eq!(units.get("options").unwrap().at(0).unwrap().at(1).unwrap().as_str(), Some("Celsius"));
    assert!(units.get("min").is_none() && units.get("hint").is_none());
    let c = get_config(Json::whole(1), true);
    assert_eq!(body(&c).get("config").unwrap().as_i64(), Some(1));
    assert_eq!(body(&c).get("auth_enabled").unwrap().as_bool(), Some(true));
    let d = widget_data(WidgetKind::Links, Json::whole(9));
    assert_eq!(word(body(&d), "type"), "links");
    assert_eq!(body(&d).get("data").unwrap().as_i64(), Some(9));
    assert!(succeeded(&put_reply(Ok(()))));
    let failed = put_reply(Err("disk".into()));
    assert_eq!((failed.status, error(&failed)), (200, "disk"));
}

#[test]
fn a_stored_document_replaces_the_old_one() {
    let (mut cfg, _) = Config::load_or_default(None);
    stamp(&mut cfg, 9);
    assert_eq!(cfg.settings.revision, 9);
    let mut incoming = Config::default();
    incoming.links.push(Link { id: "l".into(), ..Link::default() });
    put_config(&mut cfg, incoming);
    assert_eq!(cfg.links.len(), 1);
    assert_eq!(stream(1, 2), Some(2));
    assert_eq!(stream(2, 2), None);
}

#[test]
fn a_status_report_per_machine() {
    let d = Device { id: "nas".into(), name: "NAS".into(), ..Device::default() };
    let states = container_states("plex:running\n");
    let r = device_status(&d, true, &states);
    assert_eq!(word(&r, "id"), "nas");
    assert_eq!(r.get("online").unwrap().as_bool(), Some(true));
    // Only the host shows containers, and it counts as online while it has some.
    assert_eq!(r.get("containers").unwrap().as_object().unwrap().len(), 0);
    let r = device_status(&Device::host_default(), false, &states);
    assert_eq!(r.get("online").unwrap().as_bool(), Some(true));
    assert_eq!(word(r.get("containers").unwrap(), "plex"), "running");
    let r = device_status(&Device::host_default(), true, &JsonMap::new());
    assert_eq!(r.get("online").unwrap().as_bool(), Some(false));
    let all = device_statuses(&vec![Device::host_default(), d], &vec![false, true], &states);
    assert_eq!(all.as_array().unwrap().len(), 2);
    assert_eq!(word(all.at(1).unwrap(), "id"), "nas");
    assert!(matches!(r.get("stats"), Some(Json::Null)));
}

// -- the control plane -----------------------------------------------------

fn machines() -> Vec<Device> {
    let nas = Device {
        id: "nas".into(),
        ip: "192.168.1.20".into(),
        ssh: Some(SshConfig { user: "admin".into(), port: 2200 }),
        wol: Some(WolConfig { mac: "aa:bb:cc:dd:ee:ff".into(), broadcast: " ".into() }),
        docker: Some(DockerConfig {
            containers: vec![
                ContainerRef::Name("sonarr".into()),
                ContainerRef::Name("plex".into()),
                ContainerRef::Name("bad name".into()),
            ],
        }),
        ..Device::default()
    };
    let bare = Device { id: "bare".into(), ip: "fe80".into(), ..Device::default() };
    vec![Device::host_default(), nas, bare]
}

#[test]
fn machines_are_reached_as_configured() {
    let m = machines();
    let d = device_by_id(&m, "nas").unwrap();
    let t = target_for(d, Some("/key".into()));
    assert_eq!((t.ip.as_str(), t.user.as_str(), t.port), ("192.168.1.20", "admin", 2200));
    assert_eq!(t.key.as_deref(), Some("/key"));
    assert_eq!(target_for(d, Some("  ".into())).key, None);
    let e = device_by_id(&m, "192.168.1.20").unwrap_err();
    assert_eq!((e.status, error(&e)), (404, "Unknown device"));
}

#[test]
fn the_host_is_never_powered_off() {
    let m = machines();
    for action in [PowerAction::Shutdown, PowerAction::Reboot, PowerAction::Suspend] {
        let e = device_power(&m, "host", &PowerBody { action }, None).unwrap_err();
        assert_eq!(e.status, 400);
        assert_eq!(error(&e), "Refusing to change power state of the MinDash host");
        let (t, line) = device_power(&m, "nas", &PowerBody { action }, None).unwrap();
        assert_eq!((t.user.as_str(), line), ("admin", action.command()));
    }
    let gone = device_power(&m, "x", &PowerBody { action: PowerAction::Reboot }, None);
    assert_eq!(gone.unwrap_err().status, 404);
    let (r, forget) = power_reply(Err(ExecError::Failed("Broken pipe".into())));
    assert!(succeeded(&r) && forget);
    let (r, forget) = power_reply(Err(ExecError::Timeout(Limit { secs: 8, nanos: 0 })));
    assert_eq!((r.status, error(&r), forget), (502, "ssh timed out after 8s", false));
    assert!(power_reply(Ok(String::new())).1);
}

#[test]
fn waking_needs_a_mac_and_derives_the_broadcast() {
    let mut m = machines();
    let (mac, broadcast) = device_wake(&m, "nas").unwrap();
    assert_eq!((mac.as_str(), broadcast.as_str()), ("aa:bb:cc:dd:ee:ff", "192.168.1.255"));
    let e = device_wake(&m, "bare").unwrap_err();
    assert_eq!((e.status, error(&e)), (400, "No wake-on-LAN MAC configured"));
    assert_eq!(device_wake(&m, "?").unwrap_err().status, 404);
    m[2].wol = Some(WolConfig { mac: "x".into(), broadcast: String::new() });
    assert_eq!(device_wake(&m, "bare").unwrap().1, "255.255.255.255");
    m[2].wol = Some(WolConfig { mac: "x".into(), broadcast: "10.0.0.255".into() });
    assert_eq!(device_wake(&m, "bare").unwrap().1, "10.0.0.255");
    let ok = wake_reply(Ok(()), "10.0.0.255");
    assert_eq!(word(body(&ok), "broadcast"), "10.0.0.255");
    let bad = wake_reply(Err(NetError::Mac("x".into())), "");
    assert_eq!((bad.status, error(&bad)), (400, "invalid MAC address: x"));
}

#[test]
fn status_and_statistics() {
    let m = machines();
    let v = devices_status(&m, &vec![false, true, false]);
    let rows = v.get("devices").unwrap().as_array().unwrap();
    let online: Vec<bool> =
        rows.iter().map(|r| r.get("online").unwrap().as_bool().unwrap()).collect();
    assert_eq!(online, [true, true, false]);
    assert_eq!(word(&rows[1], "id"), "nas");
    assert_eq!(body(&data_reply(v)).get("data").unwrap().get("devices").unwrap().as_array().unwrap().len(), 3);

    let local = || ExecError::Failed("local".into());
    assert_eq!(stats_fallback(local(), Ok(Json::whole(1))).unwrap().as_i64(), Some(1));
    let e = stats_fallback(local(), Err(ExecError::Failed("remote".into()))).unwrap_err();
    let r = device_stats(Err(e));
    assert_eq!((r.status, error(&r)), (502, "local"));
    let ok = device_stats(Ok(Json::whole(4)));
    assert_eq!(body(&ok).get("data").unwrap().as_i64(), Some(4));
}

#[test]
fn containers_are_listed_by_machine_and_name() {
    let m = machines();
    let host = container_states("z:running\na:exited\n");
    let nas = container_states("sonarr:running\nplex:exited\nother:running\n");
    let bare = container_states("x:running\n");
    let r = containers_list(&m, &vec![Some(host), Some(nas), Some(bare)]);
    let rows = body(&r).get("containers").unwrap().as_array().unwrap();
    let shown: Vec<(&str, &str, bool)> = rows
        .iter()
        .map(|c| (word(c, "device"), word(c, "name"), c.get("running").unwrap().as_bool().unwrap()))
        .collect();
    assert_eq!(
        shown,
        [
            ("host", "a", false),
            ("host", "z", true),
            ("nas", "plex", false),
            ("nas", "sonarr", true)
        ]
    );
    let none = containers_list(&m, &vec![None, None, None]);
    assert!(body(&none).get("containers").unwrap().as_array().unwrap().is_empty());
}

#[test]
fn only_configured_containers_are_touched() {
    let m = machines();
    let ask = |name: &str| ContainerBody { name: name.into(), action: ContainerAction::Restart };
    assert_eq!(container_control(&m, &ask("plex")).unwrap(), ["restart", "plex"]);
    let e = container_control(&m, &ask("other")).unwrap_err();
    assert_eq!((e.status, error(&e)), (403, "That container is not in the configured list"));
    let e = container_control(&m, &ask("bad name")).unwrap_err();
    assert_eq!((e.status, error(&e)), (502, "invalid container name: bad name"));
    assert!(succeeded(&container_reply(Ok("x".into()))));
    let failed = container_reply(Err(NetError::Other("no".into())));
    assert_eq!((failed.status, error(&failed)), (502, "no"));
}

#[test]
fn containers_to_choose_from() {
    let r = containers_available(Ok(container_states("b:running\na:exited\n")));
    let names: Vec<&str> =
        body(&r).get("names").unwrap().as_array().unwrap().iter().map(|n| n.as_str().unwrap()).collect();
    assert_eq!(names, ["a", "b"]);
    assert!(body(&r).get("note").is_none());
    let r = containers_available(Err(NetError::Other("no docker".into())));
    assert!(succeeded(&r));
    assert_eq!(word(body(&r), "note"), "no docker");
}

#[test]
fn directories_offer_no_way_out() {
    let entry = FileEntry {
        name: "f".into(),
        path: "/srv/a/f".into(),
        is_dir: false,
        size: 3,
        modified: "1".into(),
        mode: "-".into(),
    };
    assert_eq!(entry_json(&entry).get("size").unwrap().as_u64(), Some(3));
    let r = files_list("/srv", Ok(("/srv/a".into(), vec![entry])));
    let b = body(&r);
    assert_eq!((word(b, "root"), word(b, "path"), word(b, "parent")), ("/srv", "/srv/a", "/srv"));
    assert_eq!(b.get("at_root").unwrap().as_bool(), Some(false));
    assert_eq!(word(b.get("entries").unwrap().at(0).unwrap(), "name"), "f");
    for (root, place) in [
        ("/srv", "/srv"),
        ("/srv/", "/srv"),
        ("/srv/./a/..", "/srv"),
        ("/", "/"),
        ("C:/", "C:/"),
        (r"C:\", "C:/"),
        (".", ""),
    ] {
        let r = files_list(root, Ok((place.into(), Vec::new())));
        assert_eq!(body(&r).get("at_root").unwrap().as_bool(), Some(true), "{root}");
        assert!(matches!(body(&r).get("parent"), Some(Json::Null)), "{root}");
    }
    for (root, place, parent) in [
        ("/", "/a", "/"),
        ("C:/", "C:/Users", "C:"),
        (r"C:\", "C:/a/b", "C:/a"),
        ("/srv/", "/srv/a", "/srv"),
        ("/", "/a/b", "/a"),
    ] {
        let r = files_list(root, Ok((place.into(), Vec::new())));
        assert_eq!(word(body(&r), "parent"), parent);
        assert!(mindash::paths::safe_path(parent, root).is_ok());
    }
    let e = files_list("/srv", Err(FileError::Escape));
    assert_eq!((e.status, error(&e)), (403, "That path is outside the configured root"));
    let e = files_list("/srv", Err(FileError::Other("gone".into())));
    assert_eq!((e.status, error(&e)), (502, "gone"));
}

#[test]
fn only_text_is_shown() {
    let ok = files_read(Ok("héllo".into()));
    assert_eq!(word(body(&ok), "content"), "héllo");
    let bin = files_read(Ok("a\0b".into()));
    assert_eq!((bin.status, error(&bin)), (415, "Binary file"));
    let late = format!("{}\0", "a".repeat(4096));
    assert!(succeeded(&files_read(Ok(late))));
    let edge = format!("{}\0", "a".repeat(4095));
    assert_eq!(files_read(Ok(edge)).status, 415);
    assert_eq!(files_read(Err(FileError::Escape)).status, 403);
    let q = PathQuery { path: "x".into() };
    assert_eq!(q.path, "x");
}

// -- the command line ------------------------------------------------------

fn args(list: &[&str]) -> Vec<String> {
    list.iter().map(|s| s.to_string()).collect()
}

#[test]
fn flags_are_read() {
    let a = parse_args(&args(&[])).unwrap();
    assert_eq!((a.port, a.data_dir.as_str(), a.static_dir.as_str()), (5050, "/opt/mindash", "static"));
    assert_eq!(a.action, Action::Serve);
    let a = parse_args(&args(&["--port", "80", "--data-dir", "/d", "--static-dir", "--port", "-V"]))
        .unwrap();
    assert_eq!((a.port, a.data_dir.as_str(), a.static_dir.as_str()), (80, "/d", "--port"));
    assert_eq!(a.action, Action::Version);
    let a = parse_args(&args(&["--help", "--set-password"])).unwrap();
    assert_eq!(a.action, Action::SetPassword);
    assert_eq!(parse_args(&args(&["-h"])).unwrap().action, Action::Help);
    assert_eq!(parse_args(&args(&["--print-config-dir"])).unwrap().action, Action::PrintConfigDir);
}

#[test]
fn bad_flags_are_errors() {
    for (list, want) in [
        (&["--port"][..], "--port needs a number"),
        (&["--data-dir"][..], "--data-dir needs a path"),
        (&["-h", "--static-dir"][..], "--static-dir needs a path"),
        (&["--port", "65536"][..], "--port: not a port number: 65536"),
        (&["--port", ""][..], "--port: not a port number: "),
        (&["--verbose"][..], "unknown argument: --verbose"),
    ] {
        assert_eq!(parse_args(&args(list)).unwrap_err(), want);
    }
    assert_eq!(parse_args(&args(&["--port", "65535"])).unwrap().port, 65535);
}

#[test]
fn passwords_are_taken_without_their_line_break() {
    assert_eq!(accept_password("12345678\r\n\n").unwrap(), "12345678");
    assert_eq!(accept_password("éééééééé").unwrap(), "éééééééé");
    assert_eq!(accept_password(" 1234567").unwrap(), " 1234567");
    assert!(accept_password("\n").unwrap_err().starts_with("no password on stdin"));
    assert_eq!(
        accept_password("1234567\n").unwrap_err(),
        "password must be at least 8 characters"
    );
}

#[test]
fn widgets_are_looked_up_by_id() {
    let widgets = vec![Widget::new("a", WidgetKind::Rss), Widget::new("b", WidgetKind::Links)];
    assert_eq!(find_widget(&widgets, "b"), Some(1));
}
