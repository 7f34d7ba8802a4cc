//! Machine statistics: the collector script and what its output says.

use vstd::prelude::*;

use crate::bytes::{lossy, lossy_text};
use crate::errors::{ExecError, Limit};
use crate::json::{int_view, json_views, with_field, Json, JsonMap, JsonView, NumberView};
use crate::numbers::{
    all_digits, decimal, decimal_reads_back, lemma_decimal, parse_u64, parse_unsigned, to_decimal,
};
use crate::paths::{is_drive_root, names_drive_root};
use crate::shell::Finished;
use crate::text::{
    a_tidy_text_is_kept, begins, chars_of, clip, clipped, concat2, cut, cut_last, digit, is_digit,
    is_space, lemma_split_head, lemma_split_plain, lines, opt_view, rsplit_once, same, split,
    split_char, split_lines, split_once, starts_with, string_from, the_last_separator_cuts, trim,
    trimmed, views,
};

verus! {

/// The collector for machines with a POSIX shell. It prints `key=value` lines,
/// then a line `DISKS`, then a row for every filesystem with tabs between device,
/// mount point, size and use.
pub const STATS_SCRIPT: &'static str = r#"
cpu=""; mem_total=""; mem_avail=""; temp=""; uptime_s=""
if [ -r /proc/loadavg ]; then cpu=$(cut -d' ' -f1 /proc/loadavg); fi
if [ -r /proc/meminfo ]; then
  mem_total=$(awk '/^MemTotal:/{print $2}' /proc/meminfo)
  mem_avail=$(awk '/^MemAvailable:/{print $2}' /proc/meminfo)
fi
if [ -r /proc/uptime ]; then uptime_s=$(cut -d' ' -f1 /proc/uptime); fi
for z in /sys/class/thermal/thermal_zone*/temp; do
  if [ -r "$z" ]; then temp=$(cat "$z"); break; fi
done
echo "cpu=$cpu"
echo "mem_total=$mem_total"
echo "mem_avail=$mem_avail"
echo "temp=$temp"
echo "uptime=$uptime_s"
echo "cores=$(nproc 2>/dev/null || echo 1)"
echo "DISKS"
df -B1 -P 2>/dev/null | awk 'NR>1 {print $1 "\t" $6 "\t" $2 "\t" $3}'
"#;

/// For how many seconds a remote collector may run.
pub const REMOTE_SECS: u64 = 12;

/// For how many seconds the local collector may run.
pub const LOCAL_SECS: u64 = 8;

/// The smallest filesystem, in bytes, that is worth showing is larger than this.
pub const SMALL_DISK: u64 = 1_000_000_000;

/// What came of the local collector: it did not end in time, it could not be
/// started, or it ended, with its output or with the reason that it gave.
pub fn local_stats(done: Option<Result<Finished, String>>) -> (r: Result<String, ExecError>)
    ensures
        match (r, done) {
            (Err(ExecError::Timeout(t)), None) => t.secs == LOCAL_SECS && t.nanos == 0,
            (Err(ExecError::Io(m)), Some(Err(e))) => m == e,
            (Ok(s), Some(Ok(d))) => d.success && s@ == lossy_text(d.stdout@),
            (Err(ExecError::Failed(m)), Some(Ok(d))) => !d.success && m@ == clipped(
                trimmed(lossy_text(d.stderr@)),
                200,
            ),
            _ => false,
        },
{
    match done {
        None => Err(ExecError::Timeout(Limit { secs: LOCAL_SECS, nanos: 0 })),
        Some(Err(e)) => Err(ExecError::Io(e)),
        Some(Ok(d)) => if d.success {
            Ok(lossy(&d.stdout))
        } else {
            let err = lossy(&d.stderr);
            let err = trim(err.as_str());
            Err(ExecError::Failed(clip(err.as_str(), 200)))
        },
    }
}

// ---------------------------------------------------------------------------
// Filesystems
// ---------------------------------------------------------------------------

/// A filesystem worth showing.
#[derive(Debug, Clone)]
pub struct Disk {
    pub mount: String,
    pub device: String,
    pub total: u64,
    pub used: u64,
}

/// The meaning of a [`Disk`].
pub struct DiskView {
    pub mount: Seq<char>,
    pub device: Seq<char>,
    pub total: u64,
    pub used: u64,
}

impl View for Disk {
    type V = DiskView;

    open spec fn view(&self) -> DiskView {
        DiskView {
            mount: self.mount@,
            device: self.device@,
            total: self.total,
            used: self.used,
        }
    }
}

/// The views of a list of filesystems.
pub open spec fn disk_views(v: Seq<Disk>) -> Seq<DiskView> {
    Seq::new(v.len(), |i: int| v[i]@)
}

/// The text without trailing digits.
pub open spec fn without_number(s: Seq<char>) -> Seq<char>
    decreases s.len(),
{
    if s.len() > 0 && is_digit(s.last()) {
        without_number(s.drop_last())
    } else {
        s
    }
}

/// The text behind the last slash.
pub open spec fn last_part(s: Seq<char>) -> Seq<char> {
    match cut_last(s, '/') {
        Some((_, n)) => n,
        None => s,
    }
}

/// The short name of a device: the letter of a Windows drive, or the last part
/// of the path without a partition number. A name of digits alone is kept.
pub open spec fn label_of(source: Seq<char>) -> Seq<char> {
    let t = trimmed(source);
    let name = last_part(t);
    if t.len() >= 2 && t[0] as u32 <= 0x7f && t[1] == ':' {
        seq![t[0]]
    } else if without_number(name).len() == 0 {
        name
    } else {
        without_number(name)
    }
}

/// The short name of a device.
pub fn device_label(source: &str) -> (r: String)
    ensures
        r@ == label_of(source@),
{
    let t = trim(source);
    let v = chars_of(t.as_str());
    if v.len() >= 2 && v[0] as u32 <= 0x7f && v[1] == ':' {
        let mut out = String::new();
        out.push(v[0]);
        assert(out@ =~= seq![v@[0]]);
        return out;
    }
    let name = match rsplit_once(t.as_str(), '/') {
        Some((_, n)) => n,
        None => t,
    };
    let w = chars_of(name.as_str());
    let mut hi: usize = w.len();
    assert(w@.take(w@.len() as int) =~= w@);
    while hi > 0 && digit(w[hi - 1])
        invariant
            hi <= w@.len(),
            without_number(w@) == without_number(w@.take(hi as int)),
        decreases hi,
    {
        assert(w@.take(hi as int).drop_last() =~= w@.take(hi - 1));
        hi = hi - 1;
    }
    if hi == 0 {
        name
    } else {
        let r = string_from(&w, 0, hi);
        assert(r@ =~= w@.take(hi as int));
        r
    }
}

/// The directories below which real filesystems are mounted.
pub open spec fn mount_roots() -> Seq<Seq<char>> {
    seq!["/home"@, "/mnt"@, "/media"@, "/srv"@, "/data"@, "/var"@]
}

/// The directories below which there are no filesystems worth showing.
pub open spec fn mount_skips() -> Seq<Seq<char>> {
    seq![
        "/var/lib/docker"@,
        "/var/lib/containers"@,
        "/proc"@,
        "/sys"@,
        "/dev"@,
        "/run"@,
    ]
}

/// Does the text begin with one of these?
pub open spec fn begins_with_any(s: Seq<char>, list: Seq<Seq<char>>) -> bool {
    exists|i: int| 0 <= i < list.len() && begins(s, #[trigger] list[i])
}

/// Is this a mount point worth showing? Windows drive roots and the root are, and
/// what is mounted below the usual directories unless it is a pseudo-filesystem.
pub open spec fn interesting(mount: Seq<char>) -> bool {
    ||| names_drive_root(mount)
    ||| mount == "/"@
    ||| begins_with_any(mount, mount_roots()) && !begins_with_any(mount, mount_skips())
}

/// Is this a mount point worth showing?
pub fn is_interesting_mount(mount: &str) -> (r: bool)
    ensures
        r == interesting(mount@),
{
    if is_drive_root(mount) || same(mount, "/") {
        return true;
    }
    let rooted = starts_with(mount, "/home") || starts_with(mount, "/mnt") || starts_with(
        mount,
        "/media",
    ) || starts_with(mount, "/srv") || starts_with(mount, "/data") || starts_with(mount, "/var");
    let skipped = starts_with(mount, "/var/lib/docker") || starts_with(
        mount,
        "/var/lib/containers",
    ) || starts_with(mount, "/proc") || starts_with(mount, "/sys") || starts_with(mount, "/dev")
        || starts_with(mount, "/run");
    proof {
        let a = mount_roots();
        assert(a[0] == "/home"@ && a[1] == "/mnt"@ && a[2] == "/media"@);
        assert(a[3] == "/srv"@ && a[4] == "/data"@ && a[5] == "/var"@);
        assert(rooted == begins_with_any(mount@, a));
        let b = mount_skips();
        assert(b[0] == "/var/lib/docker"@ && b[1] == "/var/lib/containers"@ && b[2] == "/proc"@);
        assert(b[3] == "/sys"@ && b[4] == "/dev"@ && b[5] == "/run"@);
        assert(skipped == begins_with_any(mount@, b));
    }
    rooted && !skipped
}

/// The number that a text writes, or 0.
pub open spec fn number_or_zero(s: Seq<char>) -> u64 {
    match parse_unsigned(s, u64::MAX as nat) {
        Some(n) => n as u64,
        None => 0,
    }
}

/// The number that a text writes, or 0.
fn parse_or_zero(s: &str) -> (r: u64)
    ensures
        r == number_or_zero(s@),
{
    match parse_u64(s) {
        Some(n) => n,
        None => 0,
    }
}

/// The filesystem that a row names, where it is worth showing: at least four
/// columns, a mount point of interest, and a size that is large enough.
pub open spec fn disk_of(row: Seq<char>) -> Option<DiskView> {
    let p = split(row, '\t');
    if p.len() < 4 {
        None
    } else {
        let total = number_or_zero(trimmed(p[2]));
        if interesting(trimmed(p[1])) && total > SMALL_DISK {
            Some(
                DiskView {
                    mount: trimmed(p[1]),
                    device: label_of(trimmed(p[0])),
                    total,
                    used: number_or_zero(trimmed(p[3])),
                },
            )
        } else {
            None
        }
    }
}

/// The filesystem that a row names, where it is worth showing.
fn parse_disk(row: &str) -> (r: Option<Disk>)
    ensures
        match r {
            Some(d) => disk_of(row@) == Some(d@),
            None => disk_of(row@) is None,
        },
{
    let p = split_char(row, '\t');
    let ghost pv = split(row@, '\t');
    assert(pv == views(p@));
    if p.len() < 4 {
        return None;
    }
    assert(pv[0] == p@[0]@ && pv[1] == p@[1]@ && pv[2] == p@[2]@ && pv[3] == p@[3]@);
    let size = trim(p[2].as_str());
    let total: u64 = parse_or_zero(size.as_str());
    let mount = trim(p[1].as_str());
    if is_interesting_mount(mount.as_str()) && total > SMALL_DISK {
        let used = trim(p[3].as_str());
        let device = trim(p[0].as_str());
        Some(
            Disk {
                mount,
                device: device_label(device.as_str()),
                total,
                used: parse_or_zero(used.as_str()),
            },
        )
    } else {
        None
    }
}

// ---------------------------------------------------------------------------
// The output of the collector
// ---------------------------------------------------------------------------

/// What the output of the collector says, before any of its figures is read.
#[derive(Debug)]
pub struct RawStats {
    /// The `key=value` lines, in order.
    pub values: Vec<(String, String)>,
    pub disks: Vec<Disk>,
}

/// The meaning of a [`RawStats`], and whether the rows for filesystems have
/// begun.
pub struct Scan {
    pub in_disks: bool,
    pub values: Seq<(Seq<char>, Seq<char>)>,
    pub disks: Seq<DiskView>,
}

/// The texts of a list of pairs.
pub open spec fn value_views(v: Seq<(String, String)>) -> Seq<(Seq<char>, Seq<char>)> {
    Seq::new(v.len(), |i: int| (v[i].0@, v[i].1@))
}

/// What some lines of the output say. A blank line says nothing.
pub open spec fn scan(rows: Seq<Seq<char>>) -> Scan
    decreases rows.len(),
{
    if rows.len() == 0 {
        Scan { in_disks: false, values: seq![], disks: seq![] }
    } else {
        let before = scan(rows.drop_last());
        let line = trimmed(rows.last());
        if line.len() == 0 {
            before
        } else if line == "DISKS"@ {
            Scan { in_disks: true, ..before }
        } else if before.in_disks {
            match disk_of(line) {
                Some(d) => Scan { disks: before.disks.push(d), ..before },
                None => before,
            }
        } else {
            match cut(line, '=') {
                Some(kv) => Scan { values: before.values.push(kv), ..before },
                None => before,
            }
        }
    }
}

/// Is the filesystem worth showing: mounted at a place of interest, and large
/// enough?
pub open spec fn is_worth_showing(d: DiskView) -> bool {
    interesting(d.mount) && d.total > SMALL_DISK
}

/// Whatever the output of the collector is, only filesystems that are worth
/// showing come out of it.
pub proof fn only_real_disks_are_shown(rows: Seq<Seq<char>>, i: int)
    requires
        0 <= i < scan(rows).disks.len(),
    ensures
        is_worth_showing(scan(rows).disks[i]),
    decreases rows.len(),
{
    if rows.len() > 0 {
        let before = scan(rows.drop_last());
        if i < before.disks.len() {
            only_real_disks_are_shown(rows.drop_last(), i);
        }
    }
}

/// The value under a key: where there are several, the last.
pub open spec fn value_of(values: Seq<(Seq<char>, Seq<char>)>, key: Seq<char>) -> Option<Seq<char>>
    decreases values.len(),
{
    if values.len() == 0 {
        None
    } else if values.last().0 == key {
        Some(trimmed(values.last().1))
    } else {
        value_of(values.drop_last(), key)
    }
}

/// Reads the `key=value` lines and the rows for filesystems.
pub fn parse_stats(raw: &str) -> (r: RawStats)
    ensures
        value_views(r.values@) == scan(lines(raw@)).values,
        disk_views(r.disks@) == scan(lines(raw@)).disks,
{
    let rows = split_lines(raw);
    let ghost rv = views(rows@);
    let mut in_disks = false;
    let mut values: Vec<(String, String)> = Vec::new();
    let mut disks: Vec<Disk> = Vec::new();
    let mut i: usize = 0;
    assert(value_views(values@) =~= scan(rv.take(0)).values);
    assert(disk_views(disks@) =~= scan(rv.take(0)).disks);
    while i < rows.len()
        invariant
            i <= rows@.len(),
            rv == views(rows@),
            in_disks == scan(rv.take(i as int)).in_disks,
            value_views(values@) == scan(rv.take(i as int)).values,
            disk_views(disks@) == scan(rv.take(i as int)).disks,
        decreases rows.len() - i,
    {
        proof {
            assert(rv.take(i + 1).drop_last() =~= rv.take(i as int));
            assert(rv.take(i + 1).last() == rows@[i as int]@);
        }
        let line = trim(rows[i].as_str());
        if line.as_str().is_empty() {
        } else if same(line.as_str(), "DISKS") {
            in_disks = true;
        } else if in_disks {
            if let Some(d) = parse_disk(line.as_str()) {
                let ghost before = disk_views(disks@);
                disks.push(d);
                assert(disk_views(disks@) =~= before.push(d@));
            }
        } else if let Some((k, v)) = split_once(line.as_str(), '=') {
            let ghost before = value_views(values@);
            values.push((k, v));
            assert(value_views(values@) =~= before.push((k@, v@)));
        }
        i = i + 1;
    }
    assert(rv.take(i as int) =~= rv);
    RawStats { values, disks }
}

impl RawStats {
    /// The value under a key, without surrounding white space.
    pub fn value(&self, key: &str) -> (r: Option<String>)
        ensures
            opt_view(r) == value_of(value_views(self.values@), key@),
    {
        let ghost vv = value_views(self.values@);
        let mut i: usize = self.values.len();
        assert(vv.take(vv.len() as int) =~= vv);
        while i > 0
            invariant
                i <= self.values@.len(),
                vv == value_views(self.values@),
                value_of(vv, key@) == value_of(vv.take(i as int), key@),
            decreases i,
        {
            assert(vv.take(i as int).last() == vv[i - 1]);
            assert(vv.take(i as int).drop_last() =~= vv.take(i - 1));
            if same(self.values[i - 1].0.as_str(), key) {
                return Some(trim(self.values[i - 1].1.as_str()));
            }
            i = i - 1;
        }
        None
    }
}

// ---------------------------------------------------------------------------
// The figures
// ---------------------------------------------------------------------------

/// The figures of a machine, read as numbers.
#[derive(Debug, Clone, Copy)]
pub struct Figures {
    /// The load in percent.
    pub cpu: i64,
    pub total_bytes: u64,
    pub avail_bytes: u64,
    /// The temperature in degrees, where one is known.
    pub temp: Option<i64>,
    /// Seconds since the start of the machine.
    pub up: u64,
}

/// A stretch of seconds in days and hours; the days are left out where there
/// are none.
pub open spec fn uptime_text(up: u64) -> Seq<char> {
    let days = up / 86_400;
    let hours = (up % 86_400) / 3600;
    if days > 0 {
        decimal(days as nat) + "d "@ + decimal(hours as nat) + "h"@
    } else {
        decimal(hours as nat) + "h"@
    }
}

/// A stretch of seconds in days and hours.
pub fn uptime(up: u64) -> (r: String)
    ensures
        r@ == uptime_text(up),
{
    let days: u64 = up / 86_400;
    let hours: u64 = (up % 86_400) / 3600;
    let h = to_decimal(hours as u128);
    if days > 0 {
        let d = to_decimal(days as u128);
        let mut out = concat2(d.as_str(), "d ");
        out.append(h.as_str());
        out.append("h");
        out
    } else {
        concat2(h.as_str(), "h")
    }
}

/// A filesystem as JSON.
pub open spec fn disk_json(d: DiskView) -> JsonView {
    let m = with_field(seq![], "mount"@, JsonView::Str(d.mount));
    let m = with_field(m, "device"@, JsonView::Str(d.device));
    let m = with_field(m, "total"@, JsonView::Number(NumberView::PosInt(d.total)));
    JsonView::Object(with_field(m, "used"@, JsonView::Number(NumberView::PosInt(d.used))))
}

/// The memory in use: the total without what is available, and none where more
/// is said to be available than there is.
pub open spec fn memory_used(total: u64, avail: u64) -> u64 {
    if avail <= total {
        (total - avail) as u64
    } else {
        0
    }
}

/// The statistics of a machine as JSON.
pub open spec fn stats_view(f: Figures, disks: Seq<DiskView>) -> JsonView {
    let m = with_field(seq![], "cpu"@, int_view(f.cpu));
    let m = with_field(m, "ram_total"@, JsonView::Number(NumberView::PosInt(f.total_bytes)));
    let m = with_field(
        m,
        "ram_used"@,
        JsonView::Number(NumberView::PosInt(memory_used(f.total_bytes, f.avail_bytes))),
    );
    let m = with_field(
        m,
        "temp"@,
        match f.temp {
            Some(t) => int_view(t),
            None => JsonView::Null,
        },
    );
    let m = with_field(m, "uptime"@, JsonView::Str(uptime_text(f.up)));
    JsonView::Object(
        with_field(
            m,
            "disks"@,
            JsonView::Array(disks.map_values(|d: DiskView| disk_json(d))),
        ),
    )
}

/// The statistics of a machine as JSON.
pub fn stats_json(f: Figures, disks: &Vec<Disk>) -> (r: Json)
    ensures
        r@ == stats_view(f, disk_views(disks@)),
{
    let mut rows: Vec<Json> = Vec::new();
    let mut i: usize = 0;
    while i < disks.len()
        invariant
            i <= disks@.len(),
            rows@.len() == i,
            forall|j: int| 0 <= j < i ==> (#[trigger] rows@[j])@ == disk_json(disks@[j]@),
        decreases disks.len() - i,
    {
        let d = &disks[i];
        let mut m = JsonMap::new();
        m.insert("mount", Json::text(d.mount.as_str()));
        m.insert("device", Json::text(d.device.as_str()));
        m.insert("total", Json::count(d.total));
        m.insert("used", Json::count(d.used));
        rows.push(Json::object(m));
        i = i + 1;
    }
    assert(json_views(rows@) =~= disk_views(disks@).map_values(|d: DiskView| disk_json(d)));
    let mut m = JsonMap::new();
    m.insert("cpu", Json::whole(f.cpu));
    m.insert("ram_total", Json::count(f.total_bytes));
    let used: u64 = if f.avail_bytes <= f.total_bytes {
        f.total_bytes - f.avail_bytes
    } else {
        0
    };
    m.insert("ram_used", Json::count(used));
    m.insert(
        "temp",
        match f.temp {
            Some(t) => Json::whole(t),
            None => Json::Null,
        },
    );
    let up = uptime(f.up);
    m.insert("uptime", Json::text(up.as_str()));
    m.insert("disks", Json::array(rows));
    Json::object(m)
}

// ---------------------------------------------------------------------------
// Laws of the figures
// ---------------------------------------------------------------------------

/// What is reported of a filesystem is its own: where it is mounted, its device,
/// its size and its use.
pub proof fn a_disk_is_reported_as_it_is(d: DiskView)
    ensures
        disk_json(d).get("mount"@) == Some(JsonView::Str(d.mount)),
        disk_json(d).get("device"@) == Some(JsonView::Str(d.device)),
        disk_json(d).get("total"@) == Some(JsonView::Number(NumberView::PosInt(d.total))),
        disk_json(d).get("used"@) == Some(JsonView::Number(NumberView::PosInt(d.used))),
{
    broadcast use crate::json::reading_behind_setting;

    reveal_strlit("mount");
    reveal_strlit("device");
    reveal_strlit("total");
    reveal_strlit("used");
}

/// A number takes no white space and no tab.
proof fn lemma_number_is_tidy(n: nat)
    ensures
        trimmed(decimal(n)) == decimal(n),
        !decimal(n).contains('\t'),
{
    lemma_decimal(n);
    let d = decimal(n);
    assert(is_digit(d[0]) && is_digit(d.last()));
    a_tidy_text_is_kept(d);
    if d.contains('\t') {
        let i = choose|i: int| 0 <= i < d.len() && d[i] == '\t';
        assert(is_digit(d[i]));
    }
}

/// A row names its filesystem column by column: the device, the mount point, the
/// size, and the use. It is shown where the mount point is of interest and the
/// size is above a billion bytes, and what is then reported as its size and its
/// use are the third and the fourth column.
pub proof fn a_row_is_read_column_by_column(
    device: Seq<char>,
    mount: Seq<char>,
    total: u64,
    used: u64,
)
    requires
        !device.contains('\t'),
        !mount.contains('\t'),
        trimmed(mount) == mount,
    ensures
        ({
            let row = device + seq!['\t'] + (mount + seq!['\t'] + (decimal(total as nat)
                + seq!['\t'] + decimal(used as nat)));
            match disk_of(row) {
                Some(d) => {
                    &&& interesting(mount) && total > 1_000_000_000
                    &&& d.mount == mount
                    &&& d.device == label_of(trimmed(device))
                    &&& d.total == total
                    &&& d.used == used
                    &&& disk_json(d).get("total"@) == Some(
                        JsonView::Number(NumberView::PosInt(total)),
                    )
                    &&& disk_json(d).get("used"@) == Some(
                        JsonView::Number(NumberView::PosInt(used)),
                    )
                },
                None => !interesting(mount) || total <= 1_000_000_000,
            }
        }),
{
    let t = decimal(total as nat);
    let u = decimal(used as nat);
    lemma_number_is_tidy(total as nat);
    lemma_number_is_tidy(used as nat);
    decimal_reads_back(total as nat, u64::MAX as nat);
    decimal_reads_back(used as nat, u64::MAX as nat);
    let c = t + seq!['\t'] + u;
    let b = mount + seq!['\t'] + c;
    let row = device + seq!['\t'] + b;
    lemma_split_head(device, '\t', b);
    lemma_split_head(mount, '\t', c);
    lemma_split_head(t, '\t', u);
    lemma_split_plain(u, '\t');
    let p = split(row, '\t');
    assert(p.len() == 4 && p[0] == device && p[1] == mount && p[2] == t && p[3] == u);
    if let Some(d) = disk_of(row) {
        a_disk_is_reported_as_it_is(d);
    }
}

/// A row with fewer than four columns names no filesystem.
pub proof fn a_short_row_names_no_disk(row: Seq<char>)
    ensures
        split(row, '\t').len() < 4 ==> disk_of(row) is None,
        !row.contains('\t') ==> disk_of(row) is None,
{
    if !row.contains('\t') {
        lemma_split_plain(row, '\t');
    }
}

/// A line that opens the rows for filesystems is no such row itself.
proof fn lemma_heading_is_no_row(line: Seq<char>)
    ensures
        disk_of(line) is Some ==> line.len() > 0 && line != "DISKS"@,
{
    reveal_strlit("DISKS");
    if line.len() == 0 || line == "DISKS"@ {
        assert(!line.contains('\t'));
        a_short_row_names_no_disk(line);
    }
}

/// Every filesystem that comes out was named by a row behind the line `DISKS`.
pub proof fn every_disk_comes_from_a_row(rows: Seq<Seq<char>>, i: int) -> (at: (int, int))
    requires
        0 <= i < scan(rows).disks.len(),
    ensures
        0 <= at.0 < at.1 < rows.len(),
        trimmed(rows[at.0]) == "DISKS"@,
        disk_of(trimmed(rows[at.1])) == Some(scan(rows).disks[i]),
    decreases rows.len(),
{
    let front = rows.drop_last();
    let before = scan(front);
    if i < before.disks.len() {
        let at = every_disk_comes_from_a_row(front, i);
        assert(front[at.0] == rows[at.0] && front[at.1] == rows[at.1]);
        at
    } else {
        let j = lemma_heading_came(front);
        assert(front[j] == rows[j]);
        (j, rows.len() - 1)
    }
}

/// Where the rows for filesystems have begun, the line that opens them came.
proof fn lemma_heading_came(rows: Seq<Seq<char>>) -> (j: int)
    requires
        scan(rows).in_disks,
    ensures
        0 <= j < rows.len(),
        trimmed(rows[j]) == "DISKS"@,
    decreases rows.len(),
{
    reveal_strlit("DISKS");
    if trimmed(rows.last()) == "DISKS"@ {
        rows.len() - 1
    } else {
        let j = lemma_heading_came(rows.drop_last());
        assert(rows.drop_last()[j] == rows[j]);
        j
    }
}

/// Behind the line `DISKS` the rows for filesystems have begun.
proof fn lemma_heading_holds(rows: Seq<Seq<char>>, j: int)
    requires
        0 <= j < rows.len(),
        trimmed(rows[j]) == "DISKS"@,
    ensures
        scan(rows).in_disks,
    decreases rows.len(),
{
    reveal_strlit("DISKS");
    if j < rows.len() - 1 {
        assert(rows.drop_last()[j] == rows[j]);
        lemma_heading_holds(rows.drop_last(), j);
    }
}

/// Every row behind the line `DISKS` that names a filesystem is reported, in the
/// order of the rows: further rows only add to what there is.
pub proof fn every_disk_row_is_reported(rows: Seq<Seq<char>>, j: int, k: int) -> (i: int)
    requires
        0 <= j < k < rows.len(),
        trimmed(rows[j]) == "DISKS"@,
        disk_of(trimmed(rows[k])) is Some,
    ensures
        0 <= i < scan(rows).disks.len(),
        Some(scan(rows).disks[i]) == disk_of(trimmed(rows[k])),
        i == scan(rows.take(k)).disks.len(),
    decreases rows.len(),
{
    let front = rows.drop_last();
    assert(front[j] == rows[j]);
    lemma_heading_holds(front, j);
    if k == rows.len() - 1 {
        lemma_heading_is_no_row(trimmed(rows[k]));
        assert(rows.take(k) =~= front);
        scan(front).disks.len() as int
    } else {
        assert(front[k] == rows[k]);
        assert(front.take(k) =~= rows.take(k));
        every_disk_row_is_reported(front, j, k)
    }
}

/// The value of a `key=value` line in front of the line `DISKS` is what follows
/// the first equals sign, without white space around it, as long as no later line
/// sets the key again.
pub proof fn a_value_is_read_from_its_line(
    rows: Seq<Seq<char>>,
    k: int,
    key: Seq<char>,
    value: Seq<char>,
)
    requires
        0 <= k < rows.len(),
        trimmed(rows[k]) == key + seq!['='] + value,
        !key.contains('='),
        forall|j: int| 0 <= j < k ==> trimmed(#[trigger] rows[j]) != "DISKS"@,
        forall|j: int|
            k < j < rows.len() ==> (cut(trimmed(#[trigger] rows[j]), '=') matches Some(kv) ==> kv.0
                != key),
    ensures
        value_of(scan(rows).values, key) == Some(trimmed(value)),
    decreases rows.len(),
{
    let front = rows.drop_last();
    let before = scan(front);
    if k == rows.len() - 1 {
        let line = trimmed(rows[k]);
        lemma_split_head(key, '=', value);
        assert(line[key.len() as int] == '=');
        reveal_strlit("DISKS");
        assert(!("DISKS"@).contains('='));
        assert(line.contains('='));
        if before.in_disks {
            let j = lemma_heading_came(front);
            assert(front[j] == rows[j]);
        }
        assert(scan(rows).values == before.values.push((key, value)));
    } else {
        assert(front[k] == rows[k]);
        assert forall|j: int| 0 <= j < k implies trimmed(#[trigger] front[j]) != "DISKS"@ by {
            assert(front[j] == rows[j]);
        }
        assert forall|j: int| k < j < front.len() implies (cut(trimmed(#[trigger] front[j]), '=')
            matches Some(kv) ==> kv.0 != key) by {
            assert(front[j] == rows[j]);
        }
        a_value_is_read_from_its_line(front, k, key, value);
        let last = rows[rows.len() - 1];
        assert(last == rows.last());
        let after = scan(rows).values;
        if after != before.values {
            assert(after.drop_last() =~= before.values);
        }
    }
}

/// A stretch of seconds reads as its whole days, where there are any, and its
/// whole hours: what is left over is less than an hour.
pub proof fn uptime_is_whole_days_and_hours(up: u64) -> (r: (nat, nat))
    ensures
        r.1 < 24,
        r.0 * 86_400 + r.1 * 3600 <= up < r.0 * 86_400 + r.1 * 3600 + 3600,
        r.0 > 0 ==> uptime_text(up) == decimal(r.0) + "d "@ + decimal(r.1) + "h"@,
        r.0 == 0 ==> uptime_text(up) == decimal(r.1) + "h"@,
{
    (up as nat / 86_400, (up as nat % 86_400) / 3600)
}

/// The partition number is no part of a device's name, and neither is the
/// directory: `/dev/sda1` is `sda`. A name of digits alone is kept. A Windows
/// drive is its letter.
pub proof fn a_device_is_named_without_its_partition(
    dir: Seq<char>,
    name: Seq<char>,
    number: Seq<char>,
    letter: char,
    rest: Seq<char>,
)
    requires
        name.len() > 0 && !name.contains('/') && !is_digit(name.last()),
        name.len() > 0 && !is_space(name.last()),
        all_digits(number),
        dir.len() > 1 && !is_space(dir[0]) && dir[1] != ':',
        letter as u32 <= 0x7f && !is_space(letter),
        rest.len() > 0 ==> !is_space(rest.last()),
    ensures
        label_of(dir + seq!['/'] + (name + number)) == name,
        number.len() > 0 ==> label_of(dir + seq!['/'] + number) == number,
        label_of(seq![letter, ':'] + rest) == seq![letter],
{
    lemma_digits_hold_no_slash(number);
    let full = name + number;
    if full.contains('/') {
        let i = choose|i: int| 0 <= i < full.len() && full[i] == '/';
        if i < name.len() {
            assert(name.contains(name[i]));
        } else {
            assert(number.contains(number[i - name.len()]));
        }
    }
    let s = dir + seq!['/'] + full;
    if number.len() > 0 {
        assert(is_digit(number.last()));
        assert(s.last() == number.last());
    } else {
        assert(s.last() == name.last());
    }
    assert(s[0] == dir[0] && s[1] == dir[1]);
    a_tidy_text_is_kept(s);
    the_last_separator_cuts(dir, '/', full);
    lemma_without_number(name, number);
    if number.len() > 0 {
        let t = dir + seq!['/'] + number;
        assert(t.last() == number.last());
        assert(t[0] == dir[0] && t[1] == dir[1]);
        a_tidy_text_is_kept(t);
        the_last_separator_cuts(dir, '/', number);
        lemma_without_number(seq![], number);
        assert(Seq::<char>::empty() + number =~= number);
    }
    let w = seq![letter, ':'] + rest;
    assert(w[0] == letter && w[1] == ':');
    if rest.len() > 0 {
        assert(w.last() == rest.last());
    }
    a_tidy_text_is_kept(w);
}

/// A row of digits holds no slash.
proof fn lemma_digits_hold_no_slash(number: Seq<char>)
    requires
        all_digits(number),
    ensures
        !number.contains('/'),
{
    if number.contains('/') {
        let i = choose|i: int| 0 <= i < number.len() && number[i] == '/';
        assert(is_digit(number[i]));
    }
}

/// Trailing digits are taken off, and nothing else.
proof fn lemma_without_number(name: Seq<char>, number: Seq<char>)
    requires
        name.len() > 0 ==> !is_digit(name.last()),
        all_digits(number),
    ensures
        without_number(name + number) == name,
    decreases number.len(),
{
    if number.len() > 0 {
        assert(is_digit(number[number.len() - 1]));
        let rest = number.drop_last();
        assert forall|i: int| 0 <= i < rest.len() implies is_digit(#[trigger] rest[i]) by {
            assert(is_digit(number[i]));
        }
        lemma_without_number(name, rest);
        assert((name + number).drop_last() =~= name + rest);
    } else {
        assert(name + number =~= name);
    }
}

/// The mount points of interest: the root, Windows drive roots, and what lies
/// below the six usual directories, unless it belongs to the container engines,
/// to a pseudo-filesystem or to the devices.
pub proof fn the_mounts_of_interest(mount: Seq<char>)
    ensures
        interesting("/"@),
        names_drive_root(mount) ==> interesting(mount),
        ({
            let usual = begins(mount, "/home"@) || begins(mount, "/mnt"@) || begins(
                mount,
                "/media"@,
            ) || begins(mount, "/srv"@) || begins(mount, "/data"@) || begins(mount, "/var"@);
            let other = begins(mount, "/var/lib/docker"@) || begins(mount, "/var/lib/containers"@)
                || begins(mount, "/proc"@) || begins(mount, "/sys"@) || begins(mount, "/dev"@)
                || begins(mount, "/run"@);
            &&& usual && !other ==> interesting(mount)
            &&& (!usual || other) && mount != "/"@ && !names_drive_root(mount) ==> !interesting(
                mount,
            )
        }),
{
    let a = mount_roots();
    assert(a[0] == "/home"@ && a[1] == "/mnt"@ && a[2] == "/media"@);
    assert(a[3] == "/srv"@ && a[4] == "/data"@ && a[5] == "/var"@);
    let b = mount_skips();
    assert(b[0] == "/var/lib/docker"@ && b[1] == "/var/lib/containers"@ && b[2] == "/proc"@);
    assert(b[3] == "/sys"@ && b[4] == "/dev"@ && b[5] == "/run"@);
}

/// What is in use and what is available make up the memory.
pub proof fn memory_is_used_or_available(total: u64, avail: u64)
    ensures
        avail <= total ==> memory_used(total, avail) + avail == total,
        avail > total ==> memory_used(total, avail) == 0,
{
}

/// The figures of a machine are reported under their names, and the filesystems
/// one by one, in their order.
pub proof fn the_figures_are_reported_as_they_are(f: Figures, disks: Seq<DiskView>)
    ensures
        ({
            let v = stats_view(f, disks);
            &&& v.get("cpu"@) matches Some(j) && j.as_i64() == Some(f.cpu)
            &&& v.get("ram_total"@) matches Some(j) && j.as_u64() == Some(f.total_bytes)
            &&& f.avail_bytes <= f.total_bytes ==> (v.get("ram_used"@) matches Some(j)
                && j.as_u64() == Some((f.total_bytes - f.avail_bytes) as u64))
            &&& f.avail_bytes > f.total_bytes ==> (v.get("ram_used"@) matches Some(j) && j.as_u64()
                == Some(0u64))
            &&& f.temp is None ==> v.get("temp"@) == Some(JsonView::Null)
            &&& f.temp matches Some(t) ==> (v.get("temp"@) matches Some(j) && j.as_i64() == Some(t))
            &&& v.get("uptime"@) == Some(JsonView::Str(uptime_text(f.up)))
            &&& v.get("disks"@) matches Some(JsonView::Array(rows)) && rows.len() == disks.len()
                && forall|i: int|
                0 <= i < disks.len() ==> {
                    &&& (#[trigger] rows[i]).get("mount"@) == Some(JsonView::Str(disks[i].mount))
                    &&& rows[i].get("device"@) == Some(JsonView::Str(disks[i].device))
                    &&& rows[i].get("total"@) == Some(
                        JsonView::Number(NumberView::PosInt(disks[i].total)),
                    )
                    &&& rows[i].get("used"@) == Some(
                        JsonView::Number(NumberView::PosInt(disks[i].used)),
                    )
                }
        }),
{
    broadcast use crate::json::reading_behind_setting;

    reveal_strlit("cpu");
    reveal_strlit("ram_total");
    reveal_strlit("ram_used");
    reveal_strlit("temp");
    reveal_strlit("uptime");
    reveal_strlit("disks");
    reveal_strlit("mount");
    reveal_strlit("device");
    reveal_strlit("total");
    reveal_strlit("used");
    let v = stats_view(f, disks);
    let rows = v.get("disks"@)->0->Array_0;
    assert forall|i: int| 0 <= i < disks.len() implies #[trigger] rows[i] == disk_json(
        disks[i],
    ) by {}
    assert forall|i: int| 0 <= i < disks.len() implies (#[trigger] rows[i]).get("mount"@) == Some(
        JsonView::Str(disks[i].mount),
    ) && rows[i].get("device"@) == Some(JsonView::Str(disks[i].device)) && rows[i].get("total"@)
        == Some(JsonView::Number(NumberView::PosInt(disks[i].total))) && rows[i].get("used"@)
        == Some(JsonView::Number(NumberView::PosInt(disks[i].used))) by {
        a_disk_is_reported_as_it_is(disks[i]);
    }
}

/// A size or a use that is no number counts as none, and how long the collectors
/// may run.
pub proof fn an_unreadable_column_is_none(row: Seq<char>)
    requires
        split(row, '\t').len() >= 4,
    ensures
        number_or_zero(trimmed(split(row, '\t')[2])) == 0 ==> disk_of(row) is None,
        parse_unsigned(trimmed(split(row, '\t')[2]), u64::MAX as nat) is None
            ==> disk_of(row) is None,
        parse_unsigned(trimmed(split(row, '\t')[3]), u64::MAX as nat) is None ==> (
        disk_of(row) matches Some(d) ==> d.used == 0),
        REMOTE_SECS == 12 && LOCAL_SECS == 8 && SMALL_DISK == 1_000_000_000,
{
}

/// A filesystem and the values that were read mean what they hold.
pub proof fn disks_and_values_mean_what_they_hold(
    d: Seq<Disk>,
    v: Seq<(String, String)>,
    i: int,
)
    ensures
        disk_views(d).len() == d.len() && value_views(v).len() == v.len(),
        0 <= i < d.len() ==> {
            &&& disk_views(d)[i].mount == d[i].mount@ && disk_views(d)[i].device == d[i].device@
            &&& disk_views(d)[i].total == d[i].total && disk_views(d)[i].used == d[i].used
        },
        0 <= i < v.len() ==> value_views(v)[i].0 == v[i].0@ && value_views(v)[i].1 == v[i].1@,
{
}

} // verus!
