//! Commands, paths, listings and statistics.

use base64::Engine;
use mindash::errors::{ExecError, FileError, Limit, NetError};
use mindash::json::Json;
use mindash::listing::{
    list_dir, list_dir_local, local_io, local_mode, plain_mode, preview, read_file,
    read_file_local, read_listing, read_outcome, FileEntry, IoKind, LocalRow,
};
use mindash::paths::{drive_prefix, is_drive_root, join_path, normalise, safe_path};
use mindash::shell::{
    b64, is_disconnect, power, quote, script_command, settle, ssh_outcome, Finished, PowerAction,
    SshTarget,
};
use mindash::stats::{
    device_label, is_interesting_mount, local_stats, parse_stats, stats_json, uptime, Figures,
    RawStats, STATS_SCRIPT,
};
use mindash::win_stats::{collect, SCRIPT};

/// A figure of the collector's output, zero where it is none.
fn num(raw: &RawStats, key: &str) -> f64 {
    raw.value(key).and_then(|v| v.trim().parse().ok()).unwrap_or(0.0)
}

/// The statistics of a collector's output.
fn stats(raw: &str) -> Json {
    let raw = parse_stats(raw);
    let cores = num(&raw, "cores").max(1.0);
    let temp_raw = num(&raw, "temp");
    let temp = if temp_raw > 1000.0 {
        Some((temp_raw / 1000.0).round() as i64)
    } else if temp_raw > 0.0 {
        Some(temp_raw.round() as i64)
    } else {
        None
    };
    let figures = Figures {
        cpu: ((num(&raw, "cpu") / cores) * 100.0).round().clamp(0.0, 100.0) as i64,
        total_bytes: (num(&raw, "mem_total") * 1024.0) as u64,
        avail_bytes: (num(&raw, "mem_avail") * 1024.0) as u64,
        temp,
        up: num(&raw, "uptime") as u64,
    };
    stats_json(figures, &raw.disks)
}

fn number(v: &Json, key: &str) -> u64 {
    v.get(key).unwrap().as_u64().unwrap()
}

fn word<'a>(v: &'a Json, key: &str) -> &'a str {
    v.get(key).unwrap().as_str().unwrap()
}

fn disks(v: &Json) -> &Vec<Json> {
    v.get("disks").unwrap().as_array().unwrap()
}

fn is_null(v: &Json, key: &str) -> bool {
    matches!(v.get(key), Some(Json::Null))
}

// -- quoting ------------------------------------------------------------

#[test]
fn quote_wraps_plain_words() {
    assert_eq!(quote("hello"), "'hello'");
    assert_eq!(quote(""), "''");
}

#[test]
fn quote_handles_embedded_single_quotes() {
    // The classic: close, escaped quote, reopen.
    assert_eq!(quote("it's"), r#"'it'\''s'"#);
    assert_eq!(quote("'''"), r#"''\'''\'''\'''"#);
    assert_eq!(quote("a'b'c"), r#"'a'\''b'\''c'"#);
}

#[test]
fn quote_neutralises_shell_metacharacters() {
    // None of these can escape a single-quoted word.
    for hostile in [
        "; rm -rf /",
        "$(whoami)",
        "`id`",
        "&& curl evil.test",
        "| sh",
        "> /etc/passwd",
        "\n rm -rf /",
        "a\nb",
        "*",
    ] {
        let quoted = quote(hostile);
        assert!(quoted.starts_with('\'') && quoted.ends_with('\''), "{hostile}");
        // The only quotes inside must be the escaped sequence.
        let inner = &quoted[1..quoted.len() - 1];
        let mut rest = inner;
        while let Some(pos) = rest.find('\'') {
            assert!(rest[pos..].starts_with("'\\''"), "unescaped quote in {quoted}");
            rest = &rest[pos + 4..];
        }
    }
}

#[test]
fn b64_output_is_shell_safe() {
    for input in ["rm -rf /", "echo 'hi'", "$(id)", "line1\nline2", "üñí"] {
        let encoded = b64(input);
        assert!(!encoded.is_empty());
        assert!(
            encoded.chars().all(|c| c.is_ascii_alphanumeric() || matches!(c, '+' | '/' | '=')),
            "{encoded} contains a shell metacharacter"
        );
    }
}

#[test]
fn b64_round_trips() {
    let script = "echo hello; if [ -r /proc/x ]; then echo yes; fi";
    let decoded = base64::engine::general_purpose::STANDARD.decode(b64(script)).unwrap();
    assert_eq!(String::from_utf8(decoded).unwrap(), script);
}

#[test]
fn scripts_travel_encoded() {
    assert_eq!(b64("hi"), "aGk=");
    assert_eq!(b64(""), "");
    assert_eq!(script_command("hi"), "echo aGk= | base64 -d | sh");
}

// -- statistics ---------------------------------------------------------

#[test]
fn stats_parse_a_realistic_payload() {
    let raw = "cpu=0.42\n\
mem_total=16384000\n\
mem_avail=12288000\n\
temp=47000\n\
uptime=259200\n\
cores=4\n\
DISKS\n\
/dev/nvme0n1p2\t/\t1000000000000\t480000000000\n\
/dev/sda1\t/mnt/media\t8000000000000\t2000000000000\n\
tmpfs\t/run\t100000\t1000\n";
    let out = stats(raw);
    assert_eq!(number(&out, "cpu"), 11); // 0.42 / 4 * 100, rounded
    assert_eq!(number(&out, "ram_total"), 16_777_216_000u64);
    assert_eq!(number(&out, "ram_used"), 4_194_304_000u64);
    assert_eq!(number(&out, "temp"), 47);
    assert_eq!(word(&out, "uptime"), "3d 0h");
    let disks = disks(&out);
    // tmpfs is too small to be interesting.
    assert_eq!(disks.len(), 2);
    assert_eq!(word(&disks[0], "mount"), "/");
    assert_eq!(word(&disks[0], "device"), "nvme0n1p");
    assert_eq!(number(&disks[0], "total"), 1_000_000_000_000u64);
    assert_eq!(word(&disks[1], "mount"), "/mnt/media");
}

#[test]
fn stats_tolerate_an_empty_or_partial_payload() {
    let out = stats("");
    assert_eq!(number(&out, "cpu"), 0);
    assert_eq!(number(&out, "ram_total"), 0);
    assert!(is_null(&out, "temp"));
    assert_eq!(disks(&out).len(), 0);

    // A host without thermal zones reports no temperature, not zero.
    let out = stats("cpu=0\ntemp=\ncores=1\nDISKS\n");
    assert!(is_null(&out, "temp"));
}

#[test]
fn stats_handle_a_zero_core_count_without_dividing_by_zero() {
    let out = stats("cpu=1.0\ncores=0\n");
    assert!(out.get("cpu").unwrap().as_i64().unwrap() <= 100);
}

#[test]
fn a_non_numeric_size_column_yields_no_disk_not_a_zero_sized_one() {
    let raw = "cpu=1\nDISKS\n/dev/sda1\t/\text4\t1000000000000\t500\n";
    let out = stats(raw);
    assert_eq!(disks(&out).len(), 0, "a malformed row must not masquerade as a valid disk");
}

#[test]
fn a_zero_sized_mount_is_dropped() {
    let raw = "cpu=1\nDISKS\n/dev/sda1\t/\t0\t0\n";
    let out = stats(raw);
    assert_eq!(disks(&out).len(), 0);
}

#[test]
fn windows_drive_roots_are_kept() {
    let raw = "cpu=1\ncores=8\nDISKS\n\
C:\tC:\\\t499051917312\t485865648128\n\
D:\tD:\\\t1000186314752\t480970801152\n";
    let out = stats(raw);
    let disks = disks(&out);
    assert_eq!(disks.len(), 2, "windows drives must survive the filter");
    assert_eq!(word(&disks[0], "mount"), "C:\\");
    assert_eq!(word(&disks[0], "device"), "C");
    assert_eq!(word(&disks[1], "device"), "D");
}

#[test]
fn pseudo_filesystems_are_rejected() {
    for mount in [
        "/proc",
        "/sys",
        "/dev",
        "/run",
        "/dev/shm",
        "/proc/acpi",
        "/var/lib/docker/overlay2",
        "/var/lib/containers/storage",
    ] {
        assert!(!is_interesting_mount(mount), "{mount} should be skipped");
    }
    for mount in ["/", "/home", "/mnt/media", "/srv", "/data", "/var/log", "C:\\", "Z:\\"] {
        assert!(is_interesting_mount(mount), "{mount} should be kept");
    }
    assert!(!is_interesting_mount(r"C:\Users"));
}

#[test]
fn device_labels_are_short() {
    assert_eq!(device_label("/dev/nvme0n1p2"), "nvme0n1p");
    assert_eq!(device_label("/dev/sda1"), "sda");
    assert_eq!(device_label("overlay"), "overlay");
    assert_eq!(device_label("C:"), "C");
    assert_eq!(device_label("C:\\"), "C");
    // A name that is only digits must not be trimmed away to nothing.
    assert_eq!(device_label("/dev/12"), "12");
}

#[test]
fn uptimes_are_days_and_hours() {
    for (secs, want) in [
        (0, "0h"),
        (3599, "0h"),
        (3600, "1h"),
        (86_399, "23h"),
        (86_400, "1d 0h"),
        (90_000, "1d 1h"),
        (u64::MAX, "213503982334601d 7h"),
    ] {
        assert_eq!(uptime(secs), want);
    }
}

#[test]
fn memory_in_use_is_never_negative() {
    let out = stats("mem_total=10\nmem_avail=20\n");
    assert_eq!(number(&out, "ram_used"), 0);
    assert_eq!(number(&out, "ram_total"), 10240);
}

#[test]
fn the_last_value_of_a_key_holds() {
    let raw = parse_stats("  cpu=1 \ncpu=2\nno sign\n=x\nDISKS\ncpu=3\n");
    assert_eq!(raw.value("cpu").as_deref(), Some("2"));
    assert_eq!(raw.value("").as_deref(), Some("x"));
    assert_eq!(raw.value("temp"), None);
    assert!(raw.disks.is_empty());
}

#[test]
fn a_disk_over_the_threshold_is_kept() {
    let row = |n: u64| format!("DISKS\n/dev/sda1\t/\t{n}\tx\n");
    assert_eq!(parse_stats(&row(1_000_000_000)).disks.len(), 0);
    let kept = parse_stats(&row(1_000_000_001)).disks;
    assert_eq!(kept.len(), 1);
    assert_eq!((kept[0].total, kept[0].used), (1_000_000_001, 0));
}

#[test]
fn the_script_emits_the_shared_keys() {
    for key in ["cpu=", "mem_total=", "mem_avail=", "temp=", "uptime=", "cores="] {
        assert!(SCRIPT.contains(key), "missing {key}");
    }
    // The DISKS sentinel and a tab-separated row are what the parser needs.
    assert!(SCRIPT.contains("DISKS"));
    assert!(SCRIPT.contains("`t"), "rows must be tab separated");
}

#[test]
fn memory_is_reported_in_kilobytes_like_proc_meminfo() {
    // Win32_OperatingSystem reports kB, which is what the parser multiplies
    // by 1024. If this ever became bytes the RAM figure would be 1024x out.
    assert!(SCRIPT.contains("TotalVisibleMemorySize"));
    assert!(!SCRIPT.contains("TotalVisibleMemorySize) * 1024"));
}

#[test]
fn collect_returns_parseable_output_or_a_clear_error() {
    let raw = "cpu=0\nmem_total=16384000\nmem_avail=1000\ntemp=\nuptime=7200\ncores=8\nDISKS\n";
    let out = collect(Some(Ok(finished(true, raw, "")))).unwrap();
    let parsed = stats(&out);
    assert!(number(&parsed, "ram_total") > 0, "no RAM in {raw}");
    assert_eq!(word(&parsed, "uptime"), "2h");
    assert!(number(&parsed, "cpu") <= 100, "cpu out of range in {raw}");
    for bad in [
        None,
        Some(Err("no such file".to_string())),
        Some(Ok(finished(false, "", "boom"))),
        Some(Ok(finished(false, "", ""))),
    ] {
        let e = collect(bad).unwrap_err();
        assert!(!e.is_empty(), "an error must explain itself");
    }
    assert_eq!(
        collect(Some(Ok(finished(false, "", " boom \n")))).unwrap_err(),
        "windows stats failed: boom"
    );
}

// -- ssh ----------------------------------------------------------------

fn finished(success: bool, stdout: &str, stderr: &str) -> Finished {
    Finished {
        success,
        status: "exit status: 1".to_string(),
        stdout: stdout.as_bytes().to_vec(),
        stderr: stderr.as_bytes().to_vec(),
    }
}

#[test]
fn target_requires_host_and_user() {
    let t = SshTarget::default();
    assert!(t.args().iter().any(|a| a == "22"));
    assert_eq!(t.port_or_default(), 22);
    let t = SshTarget { port: 2222, ..Default::default() };
    assert!(t.args().iter().any(|a| a == "2222"));
}

#[test]
fn run_without_a_host_fails_cleanly() {
    let t = SshTarget::default();
    let err = t.run("true");
    assert!(matches!(err, Err(ExecError::Failed(_))));
    let t = SshTarget { ip: "10.0.0.1".into(), ..Default::default() };
    assert_eq!(t.reachable().unwrap_err().message(), "no SSH user configured");
}

#[test]
fn a_call_is_a_list_of_arguments() {
    let t = SshTarget {
        ip: "10.0.0.1".into(),
        user: "admin".into(),
        port: 0,
        key: Some("/k".into()),
    };
    let args = t.run("echo 'a b'").unwrap();
    assert_eq!(args[args.len() - 2], "admin@10.0.0.1");
    assert_eq!(args[args.len() - 1], "echo 'a b'");
    assert!(args.windows(2).any(|w| w == ["-i", "/k"]));
    assert!(args.contains(&"BatchMode=yes".to_string()));
    assert!(args.contains(&"IdentitiesOnly=yes".to_string()));
    let script = t.script("hi").unwrap();
    assert_eq!(script.last().unwrap(), "echo aGk= | base64 -d | sh");
    assert_eq!(t.reachable().unwrap().last().unwrap(), "true");
}

#[test]
fn outcomes_of_a_call() {
    let limit = Limit { secs: 12, nanos: 0 };
    assert_eq!(ssh_outcome(None, limit).unwrap_err().message(), "ssh timed out after 12s");
    let half = Limit { secs: 1, nanos: 500_000_000 };
    assert_eq!(ssh_outcome(None, half).unwrap_err().message(), "ssh timed out after 1.5s");
    let io = ssh_outcome(Some(Err("gone".into())), limit).unwrap_err();
    assert!(matches!(&io, ExecError::Io(m) if m == "gone"));
    assert_eq!(ssh_outcome(Some(Ok(finished(true, " out \n", "x"))), limit).unwrap(), "out");
    let failed = ssh_outcome(Some(Ok(finished(false, "out", " why \n"))), limit).unwrap_err();
    assert!(matches!(&failed, ExecError::Failed(m) if m == "why"));
    let silent = ssh_outcome(Some(Ok(finished(false, "", ""))), limit).unwrap_err();
    assert!(matches!(&silent, ExecError::Failed(m) if m == "ssh exited with exit status: 1"));
    let long = ssh_outcome(Some(Ok(finished(false, "", &"é".repeat(400)))), limit).unwrap_err();
    assert!(matches!(&long, ExecError::Failed(m) if m.chars().count() == 300));
    // Bytes that are no text are replaced.
    let odd = Finished { stdout: vec![b'a', 0xff, b'b'], ..finished(true, "", "") };
    assert_eq!(ssh_outcome(Some(Ok(odd)), limit).unwrap(), "a\u{fffd}b");
    assert_eq!(settle(false, "s", "", "abcdef", "lead ", 3).unwrap_err(), "abc");
}

#[test]
fn local_statistics_are_settled_alike() {
    assert_eq!(local_stats(Some(Ok(finished(true, "cpu=1\n", "")))).unwrap(), "cpu=1\n");
    assert!(local_stats(Some(Ok(finished(false, "", "bad")))).is_err());
    assert!(matches!(local_stats(None), Err(ExecError::Timeout(_))));
    assert!(matches!(local_stats(Some(Err("x".into()))), Err(ExecError::Io(_))));
    assert!(STATS_SCRIPT.contains("DISKS"));
}

// -- paths --------------------------------------------------------------

#[test]
fn safe_path_allows_children_of_the_root() {
    for (req, want) in [
        ("/srv", "/srv"),
        ("/srv/", "/srv"),
        ("/srv/media", "/srv/media"),
        ("/srv//media//", "/srv/media"),
        ("/srv/./media", "/srv/media"),
        ("/srv/a/../media", "/srv/media"),
        ("", "/srv"),
    ] {
        assert_eq!(safe_path(req, "/srv").unwrap(), want, "{req}");
    }
}

#[test]
fn safe_path_rejects_traversal() {
    for req in ["/srv/../etc", "/srv/../../etc/shadow", "/etc", "/", "/srv/../..", ".."] {
        assert!(
            matches!(safe_path(req, "/srv"), Err(FileError::Escape)),
            "{req} should be rejected"
        );
    }
}

#[test]
fn safe_path_rejects_a_sibling_with_a_shared_prefix() {
    // `/srv/backups-evil` must not pass as a child of `/srv/backups`.
    assert!(matches!(safe_path("/srv/backups-evil", "/srv/backups"), Err(FileError::Escape)));
    // ...but a real child does.
    assert!(safe_path("/srv/backups/daily", "/srv/backups").is_ok());
}

#[test]
fn safe_path_rejects_control_characters() {
    // A newline or a NUL would let the remote shell see a second command.
    for req in ["/srv/a\nb", "/srv/a\rb", "/srv/a\u{0}b"] {
        assert!(
            matches!(safe_path(req, "/srv"), Err(FileError::Other(_))),
            "control characters must be rejected: {req:?}"
        );
    }
}

#[test]
fn shell_metacharacters_are_legal_in_a_path_and_left_intact() {
    for hostile in [
        "/srv/x;rm -rf /tmp", // no trailing slash: kept verbatim
        "/srv/$(whoami)",
        "/srv/`id`",
        "/srv/a&&b",
        "/srv/a|b",
    ] {
        assert_eq!(safe_path(hostile, "/srv").unwrap(), hostile, "{hostile}");
        let quoted = quote(hostile);
        assert!(quoted.starts_with('\'') && quoted.ends_with('\''), "{quoted}");
        // The inner text survives untouched, so the remote shell sees one word.
        assert_eq!(&quoted[1..quoted.len() - 1], hostile);
    }
}

#[test]
fn root_of_slash_allows_everything_absolute() {
    assert!(safe_path("/etc/passwd", "/").is_ok());
    assert!(safe_path("/", "/").is_ok());
}

#[test]
fn normalise_collapses_dot_segments() {
    assert_eq!(normalise("/a/b/../c"), "/a/c");
    assert_eq!(normalise("/a/./b/"), "/a/b");
    assert_eq!(normalise("/../.."), "/");
    assert_eq!(normalise("rel/./x"), "rel/x");
}

#[test]
fn normalise_folds_windows_separators() {
    assert_eq!(normalise(r"C:\Users"), "C:/Users");
    assert_eq!(normalise(r"C:\Users\me"), "C:/Users/me");
    assert_eq!(normalise(r"C:\Users\..\Public"), "C:/Public");
    assert_eq!(normalise("C:/Users/me/"), "C:/Users/me");
}

#[test]
fn a_bare_drive_keeps_its_root_separator() {
    assert_eq!(normalise("C:/"), "C:/");
    assert_eq!(normalise("C:\\"), "C:/");
    assert_eq!(normalise("c:/"), "c:/");
    assert_eq!(normalise("C:/Users"), "C:/Users");
    // Two-character non-drive names must not be treated as drives.
    assert_eq!(normalise("ab"), "ab");
}

#[test]
fn dotdot_cannot_climb_above_a_drive_root() {
    assert_eq!(normalise("C:/.."), "C:/");
    assert_eq!(normalise("C:/../.."), "C:/");
    assert_eq!(normalise("C:/Users/.."), "C:/");
    assert_eq!(normalise("C:/Users/../.."), "C:/");
    // Unix behaves the same at its root.
    assert_eq!(normalise("/../.."), "/");
}

#[test]
fn a_drive_root_is_its_own_root() {
    let root = "C:/";
    for ok in ["C:/", "C:/Users", "C:/Users/me", r"C:\Users"] {
        assert!(safe_path(ok, root).is_ok(), "{ok} should be allowed");
    }
    // There is nothing above a drive to escape to.
    for weird in ["C:/../..", "C:/Users/../..", "C:/Users/../../.."] {
        assert_eq!(safe_path(weird, root).unwrap(), "C:/", "{weird}");
    }
}

#[test]
fn windows_roots_confine_like_unix_ones() {
    let root = r"C:\Users\me";
    for ok in [r"C:\Users\me", r"C:\Users\me\docs", "C:/Users/me/docs"] {
        assert!(safe_path(ok, root).is_ok(), "{ok} should be allowed");
    }
    for bad in [r"C:\Users", r"C:\Windows", r"C:\Users\me\..\..\Windows"] {
        assert!(
            matches!(safe_path(bad, root), Err(FileError::Escape)),
            "{bad} should be refused"
        );
    }
}

#[test]
fn join_path_keeps_the_directory_separator() {
    assert_eq!(join_path("/etc", "hosts"), "/etc/hosts");
    assert_eq!(join_path("/etc/", "hosts"), "/etc/hosts");
    assert_eq!(join_path(r"C:\Users", "me"), r"C:\Users\me");
    assert_eq!(join_path("C:", "Users"), r"C:\Users");
    assert_eq!(join_path("C:/", "Users"), r"C:\Users");
    assert_eq!(join_path("/", "etc"), "/etc");
}

#[test]
fn relative_requests_start_at_the_root() {
    assert_eq!(safe_path("media", "/srv").unwrap(), "/srv/media");
    assert_eq!(safe_path("./././media", "/srv").unwrap(), "/srv/media");
    assert_eq!(safe_path("  ", "/srv").unwrap(), "/srv");
    assert_eq!(safe_path("a", r"C:\x").unwrap(), "C:/x/a");
    assert!(matches!(safe_path("a/../../b", "/srv"), Err(FileError::Escape)));
    assert_eq!(
        safe_path("a\tb", "/srv").unwrap_err().message(),
        "path contains control characters"
    );
    assert_eq!(drive_prefix("c:x").as_deref(), Some("c:"));
    assert_eq!(drive_prefix("1:x"), None);
    for root in ["C:", "C:/", r"c:\", r"C:\/"] {
        assert!(is_drive_root(root), "{root}");
    }
    for other in ["/C:", "C:/Users", "C:x", "C", "", "1:/"] {
        assert!(!is_drive_root(other), "{other}");
    }
}

#[test]
fn a_root_that_resolves_to_nothing_confines_too() {
    for root in [".", "", "./", "a/.."] {
        for bad in ["/etc/passwd", "/", r"\etc\passwd", "C:/x", "./C:x", "x/../C:y"] {
            assert!(matches!(safe_path(bad, root), Err(FileError::Escape)), "{bad} below {root}");
        }
        for (ok, want) in [("", ""), ("a", "a"), ("./a/b", "a/b"), ("..", ""), ("a/../../b", "b")] {
            assert_eq!(safe_path(ok, root).unwrap(), want, "{ok} below {root}");
        }
    }
    let (dir, script) = list_dir("", ".").unwrap();
    assert_eq!(dir, "");
    assert!(script.starts_with("for f in '.'/* "));
    let row = LocalRow {
        name: "a".into(),
        is_dir: false,
        len: 1,
        modified: None,
        mode: String::new(),
    };
    let listed = list_dir_local("", &vec![row]);
    assert_eq!(listed[0].path, "./a");
    assert_eq!(safe_path(&listed[0].path, ".").unwrap(), "a");
}

#[test]
fn a_root_with_control_characters_is_refused() {
    for root in ["/srv\nx", "/srv\u{0}", "/a\r/.."] {
        for path in ["", "a", "/srv"] {
            assert!(matches!(safe_path(path, root), Err(FileError::Other(_))), "{path:?}");
        }
    }
}

#[test]
fn resolving_is_settled_after_one_step() {
    for p in ["/a/../b//c/.", r"C:\a\..\b", "x/../../y", "", "/", "..", "a/b/"] {
        let once = normalise(p);
        assert_eq!(normalise(&once), once, "{p}");
    }
    // A drive that dot segments hid shows only then.
    assert_eq!(normalise("./C:x"), "C:x");
    assert_eq!(normalise("C:x"), "C:/x");
}

#[test]
fn what_is_accepted_is_accepted_again() {
    for (req, root) in [("/srv/a/..", "/srv"), ("b", r"C:\x"), ("/x", "/"), ("", "/srv/../opt/")] {
        let place = safe_path(req, root).unwrap();
        assert_eq!(safe_path(&place, root).unwrap(), place);
    }
}

// -- power --------------------------------------------------------------

#[test]
fn power_commands_never_prompt_and_are_constant() {
    for action in [PowerAction::Shutdown, PowerAction::Reboot, PowerAction::Suspend] {
        let cmd = action.command();
        assert!(cmd.starts_with("sudo -n "), "{cmd} would prompt for a password");
        // No interpolation surface: the command is a fixed literal.
        assert!(!cmd.contains("{}"));
    }
    assert_eq!(PowerAction::Reboot.command(), "sudo -n reboot");
}

#[test]
fn power_actions_deserialise_from_lowercase() {
    let read = |json: &str| PowerAction::from_name(&serde_json::from_str::<String>(json).unwrap());
    for (json, want) in [
        ("\"shutdown\"", PowerAction::Shutdown),
        ("\"reboot\"", PowerAction::Reboot),
        ("\"suspend\"", PowerAction::Suspend),
    ] {
        assert_eq!(read(json), Some(want));
    }
    // An arbitrary command string is not accepted.
    assert!(read("\"rm -rf /\"").is_none());
}

#[test]
fn disconnect_detection_matches_real_ssh_errors() {
    for msg in [
        "Connection to 10.0.0.1 closed by remote host.",
        "Connection reset by peer",
        "Broken pipe",
        "ssh: Connection closed by 10.0.0.1 port 22",
    ] {
        assert!(is_disconnect(msg), "{msg} should count as a drop");
    }
}

#[test]
fn unreachable_is_not_treated_as_a_disconnect() {
    // Nothing ran, so a "reboot" must not be reported as successful just
    // because the host was unreachable.
    for msg in [
        "ssh: connect to host 10.0.0.1 port 22: Connection timed out",
        "ssh: connect to host 10.0.0.1 port 22: No route to host",
        "sudo: a password is required",
        "Permission denied (publickey).",
        "ssh: connect to host 10.0.0.1 port 22: Connection refused",
        "Connection to 10.0.0.1 port 22 timed out",
        "WARNING: REMOTE HOST IDENTIFICATION HAS CHANGED! Host key verification failed.",
    ] {
        assert!(!is_disconnect(msg), "{msg} is a real failure");
    }
}

#[test]
fn a_dropped_connection_counts_as_success() {
    assert!(power(Ok("out".into())).is_ok());
    assert!(power(Err(ExecError::Failed("Broken pipe".into()))).is_ok());
    assert!(power(Err(ExecError::Failed("Permission denied".into()))).is_err());
    assert!(power(Err(ExecError::Io("Broken pipe".into()))).is_err());
    assert!(matches!(
        power(Err(ExecError::Timeout(Limit { secs: 1, nanos: 0 }))),
        Err(ExecError::Timeout(_))
    ));
}

// -- errors -------------------------------------------------------------

#[test]
fn errors_read_as_documented() {
    assert_eq!(ExecError::Failed("x".into()).message(), "x");
    assert_eq!(ExecError::Io("x".into()).message(), "io: x");
    assert_eq!(FileError::Other("x".into()).message(), "x");
    assert_eq!(FileError::Escape.message(), "path escapes the listing root");
    assert_eq!(FileError::Exec(ExecError::Failed("x".into())).message(), "x");
    assert_eq!(NetError::Other("x".into()).message(), "x");
    assert_eq!(NetError::Mac("x".into()).message(), "invalid MAC address: x");
    assert_eq!(NetError::Io("x".into()).message(), "io: x");
}

// -- listings -----------------------------------------------------------

fn names(entries: &[FileEntry]) -> Vec<&str> {
    entries.iter().map(|e| e.name.as_str()).collect()
}

#[test]
fn directories_come_first_and_case_does_not_matter() {
    let row = |name: &str, is_dir: bool| LocalRow {
        name: name.into(),
        is_dir,
        len: 7,
        modified: Some(5),
        mode: "m".into(),
    };
    let rows = vec![
        row("zeta", false),
        row("Beta", true),
        row("Ärger", false),
        row("alpha", true),
        row("..", true),
        row("ärger2", false),
        row("", false),
    ];
    let out = list_dir_local("/srv", &rows);
    assert_eq!(names(&out), ["alpha", "Beta", "zeta", "Ärger", "ärger2"]);
    assert_eq!(out[2].path, "/srv/zeta");
    assert_eq!((out[2].size, out[0].size), (7, 0));
    assert_eq!(out[2].modified, "5");
}

#[test]
fn a_listing_is_bounded() {
    let rows: Vec<LocalRow> = (0..600)
        .map(|i| LocalRow {
            name: format!("f{i:03}"),
            is_dir: false,
            len: 0,
            modified: None,
            mode: String::new(),
        })
        .collect();
    let out = list_dir_local("/", &rows);
    assert_eq!(out.len(), 500);
    assert_eq!(out[499].name, "f499");
    assert_eq!(out[0].modified, "");
}

#[test]
fn the_rows_of_a_remote_listing() {
    let raw = "regular file\t12\t1700000000\t-rw-r--r--\t/srv/b\n\
directory\t4096\t1700000001\tdrwxr-xr-x\t/srv/A\n\
regular file\tx\t1\t-\t/srv/c\td\n\
short\trow\n\
symbolic link\t3\t1\tl\t/srv/..\n\
DIR\t/srv\n";
    let entries = read_listing(raw);
    assert_eq!(names(&entries), ["A", "b", "c\td"]);
    assert!(entries[0].is_dir && !entries[1].is_dir);
    assert_eq!((entries[1].size, entries[2].size), (12, 0));
    assert_eq!(entries[1].mode, "-rw-r--r--");
    assert_eq!(entries[2].path, "/srv/c\td");
}

#[test]
fn the_listing_script_quotes_the_directory() {
    let (dir, script) = list_dir("it's", "/srv").unwrap();
    assert_eq!(dir, "/srv/it's");
    assert!(script.starts_with(r#"for f in '/srv/it'\''s'/* "#));
    assert!(matches!(list_dir("/etc", "/srv"), Err(FileError::Escape)));
    assert!(matches!(list_dir("a\nb", "/srv"), Err(FileError::Other(_))));
    assert_eq!(read_file("f", "/srv", 10).unwrap(), "head -c 11 '/srv/f'");
    assert!(matches!(read_file("../x", "/srv", 10), Err(FileError::Escape)));
}

#[test]
fn previews_are_bounded() {
    assert_eq!(preview(&"é".as_bytes().to_vec(), 2).unwrap(), "é");
    assert_eq!(preview(&vec![b'a', 0xff], 2).unwrap(), "a\u{fffd}");
    let e = preview(&"é".as_bytes().to_vec(), 1).unwrap_err();
    assert_eq!(e.message(), "file is larger than the 0 KB preview limit");
    assert!(read_file_local(false, 10, 10).is_ok());
    assert_eq!(read_file_local(true, 0, 10).unwrap_err().message(), "that is a directory");
    assert_eq!(
        read_file_local(false, 524_289, 524_288).unwrap_err().message(),
        "file is larger than the 512 KB preview limit"
    );
}

#[test]
fn a_file_is_read_as_it_is() {
    let limit = Limit { secs: 15, nanos: 0 };
    let text = "\n  key: value \n\n";
    let read = |out: &str, max: u64| read_outcome(Some(Ok(finished(true, out, ""))), limit, max);
    assert_eq!(read(text, 100).unwrap(), text);
    // A cut that ends in white space is still a cut.
    assert_eq!(read("ab  ", 3).unwrap_err().message(), "file is larger than the 0 KB preview limit");
    let failed = read_outcome(Some(Ok(finished(false, "", " no such file \n"))), limit, 9);
    assert_eq!(failed.unwrap_err().message(), "no such file");
    assert!(matches!(
        read_outcome(None, limit, 9),
        Err(FileError::Exec(ExecError::Timeout(_)))
    ));
    assert!(matches!(
        read_outcome(Some(Err("gone".into())), limit, 9),
        Err(FileError::Exec(ExecError::Io(_)))
    ));
}

#[test]
fn modes_and_local_errors() {
    assert_eq!(local_mode(true, 0o755), "drwxr-xr-x");
    assert_eq!(local_mode(false, 0o100_640), "-rw-r-----");
    assert_eq!(plain_mode(true, false), "drw-------");
    assert_eq!(plain_mode(false, true), "-r--------");
    assert_eq!(local_io(IoKind::NotFound, "x").message(), "no such file or directory");
    assert_eq!(local_io(IoKind::PermissionDenied, "x").message(), "permission denied");
    assert_eq!(local_io(IoKind::Other, "x").message(), "x");
}
