//! The control panels in the browser: machines, files, containers.
//!
//! Each panel keeps a small state that changes when a request starts and when its
//! answer comes; what is shown follows from the state alone.

use vstd::prelude::*;

use crate::client::{Container, DeviceStatus, Entry, Listing};
use crate::config::Device;
use crate::json::{text_of, text_or, Json, JsonView};
use crate::net::ContainerAction;
use crate::numbers::{signed_decimal, to_decimal};
use crate::shell::PowerAction;
use crate::text::{
    concat2, concat3, join, lemma_split_head, opt_view, same, split, split_char, split_undoes_join,
    views,
};

verus! {

// ---------------------------------------------------------------------------
// Machines
// ---------------------------------------------------------------------------

/// Is the machine shown as online?
pub open spec fn is_online(d: Device, statuses: Seq<DeviceStatus>) -> bool {
    d.is_host || exists|i: int|
        0 <= i < statuses.len() && (#[trigger] statuses[i]).id@ == d.id@ && statuses[i].online
}

/// Is the machine shown as online? The host always is.
pub fn online(d: &Device, statuses: &Vec<DeviceStatus>) -> (r: bool)
    ensures
        r == is_online(*d, statuses@),
{
    if d.is_host {
        return true;
    }
    let mut i: usize = 0;
    while i < statuses.len()
        invariant
            i <= statuses@.len(),
            forall|j: int|
                0 <= j < i ==> !((#[trigger] statuses@[j]).id@ == d.id@ && statuses@[j].online),
        decreases statuses.len() - i,
    {
        if same(statuses[i].id.as_str(), d.id.as_str()) && statuses[i].online {
            return true;
        }
        i = i + 1;
    }
    false
}

/// The name of a machine on the dashboard: its id where it has none.
pub fn tile_name(d: &Device) -> (r: &str)
    ensures
        r@ == if d.name@.len() == 0 {
            d.id@
        } else {
            d.name@
        },
{
    if d.name.as_str().is_empty() {
        d.id.as_str()
    } else {
        d.name.as_str()
    }
}

/// The number under a key.
pub open spec fn number_at(v: JsonView, key: Seq<char>) -> Option<i64> {
    match v.get(key) {
        Some(j) => j.as_i64(),
        None => None,
    }
}

/// The number under a key.
pub fn num_at(v: &Json, key: &str) -> (r: Option<i64>)
    ensures
        r == number_at(v@, key@),
{
    match v.get(key) {
        Some(j) => j.as_i64(),
        None => None,
    }
}

/// The count under a key, zero where there is none.
pub open spec fn count_at(v: JsonView, key: Seq<char>) -> u64 {
    match v.get(key) {
        Some(j) => match j.as_u64() {
            Some(n) => n,
            None => 0,
        },
        None => 0,
    }
}

/// The count under a key, zero where there is none.
fn count_of(v: &Json, key: &str) -> (r: u64)
    ensures
        r == count_at(v@, key@),
{
    match v.get(key) {
        Some(j) => match j.as_u64() {
            Some(n) => n,
            None => 0,
        },
        None => 0,
    }
}

/// The whole percentage that a part is of a total, cut off towards zero.
pub open spec fn share(part: int, total: int) -> int {
    if total <= 0 {
        0
    } else if part < 0 {
        -((-part * 100) / total)
    } else {
        (part * 100) / total
    }
}

/// A disk as it is shown.
#[derive(Debug)]
pub struct DiskRow {
    pub mount: String,
    pub used: u64,
    pub total: u64,
    pub percent: u128,
}

/// The row of a disk.
pub open spec fn shows_disk(r: DiskRow, d: JsonView) -> bool {
    &&& r.mount@ == text_or(d.get("mount"@), ""@)
    &&& r.used == count_at(d, "used"@)
    &&& r.total == count_at(d, "total"@)
    &&& r.percent == share(r.used as int, r.total as int)
}

/// The row of a disk.
fn disk_row(d: &Json) -> (r: DiskRow)
    ensures
        shows_disk(r, d@),
{
    let mount = String::from_str(text_of(d.get("mount"), ""));
    let used: u64 = count_of(d, "used");
    let total: u64 = count_of(d, "total");
    let percent: u128 = if total > 0 {
        used as u128 * 100 / (total as u128)
    } else {
        0
    };
    DiskRow { mount, used, total, percent }
}

/// The statistics of a machine as they are shown.
#[derive(Debug)]
pub struct StatsShown {
    pub cpu: Option<i64>,
    /// The share of the memory that is used, as text.
    pub ram: String,
    /// How many bytes of memory are used.
    pub ram_used: u64,
    pub temp: Option<i64>,
    pub uptime: String,
    pub disks: Vec<DiskRow>,
}

/// A number that may be missing, zero where it is.
pub open spec fn or_zero(n: Option<i64>) -> i64 {
    match n {
        Some(v) => v,
        None => 0,
    }
}

/// The disks of a machine.
pub open spec fn disks_in(s: JsonView) -> Seq<JsonView> {
    match s.get("disks"@) {
        Some(JsonView::Array(v)) => v,
        _ => seq![],
    }
}

/// Do the rows show these disks?
pub open spec fn shows_disks(rows: Seq<DiskRow>, disks: Seq<JsonView>) -> bool {
    &&& rows.len() == disks.len()
    &&& forall|i: int| 0 <= i < rows.len() ==> shows_disk(#[trigger] rows[i], disks[i])
}

/// Is this what is shown of the statistics?
pub open spec fn shows_stats(r: StatsShown, s: JsonView) -> bool {
    let total = or_zero(number_at(s, "ram_total"@));
    let used = or_zero(number_at(s, "ram_used"@));
    &&& r.cpu == number_at(s, "cpu"@)
    &&& r.ram@ == if total > 0 {
        signed_decimal(share(used as int, total as int)) + "%"@
    } else {
        "—"@
    }
    &&& r.ram_used == if used < 0 {
        used + 0x1_0000_0000_0000_0000
    } else {
        used as int
    }
    &&& r.temp == number_at(s, "temp"@)
    &&& r.uptime@ == text_or(s.get("uptime"@), ""@)
    &&& shows_disks(r.disks@, disks_in(s))
}

/// The share of the memory that is used.
fn share_text(used: i64, total: i64) -> (r: String)
    requires
        total > 0,
    ensures
        r@ == signed_decimal(share(used as int, total as int)) + "%"@,
{
    let part: u128 = if used < 0 {
        (-(used as i128)) as u128
    } else {
        used as u128
    };
    let q: u128 = part * 100 / (total as u128);
    let digits = to_decimal(q);
    proof {
        reveal_strlit("-");
        assert("-"@ =~= seq!['-']);
        assert(share(used as int, total as int) == if used < 0 {
            -(q as int)
        } else {
            q as int
        });
    }
    if used < 0 && q > 0 {
        concat3("-", digits.as_str(), "%")
    } else {
        concat2(digits.as_str(), "%")
    }
}

/// What is shown of the statistics of a machine.
pub fn stats_shown(s: &Json) -> (r: StatsShown)
    ensures
        shows_stats(r, s@),
{
    let cpu = num_at(s, "cpu");
    let total: i64 = match num_at(s, "ram_total") {
        Some(n) => n,
        None => 0,
    };
    let used: i64 = match num_at(s, "ram_used") {
        Some(n) => n,
        None => 0,
    };
    let temp = num_at(s, "temp");
    let uptime = String::from_str(text_of(s.get("uptime"), ""));
    let ram = if total > 0 {
        share_text(used, total)
    } else {
        String::from_str("—")
    };
    let ram_used: u64 = if used < 0 {
        (used as i128 + 0x1_0000_0000_0000_0000) as u64
    } else {
        used as u64
    };
    let mut disks: Vec<DiskRow> = Vec::new();
    let ghost dv = disks_in(s@);
    match s.get("disks") {
        Some(d) => match d.as_array() {
            Some(list) => {
                let n: usize = list.len();
                let mut i: usize = 0;
                while i < n
                    invariant
                        i <= n,
                        n == list@.len(),
                        dv.len() == n,
                        forall|j: int| 0 <= j < n ==> dv[j] == (#[trigger] list@[j])@,
                        disks@.len() == i,
                        forall|j: int| 0 <= j < i ==> shows_disk(#[trigger] disks@[j], dv[j]),
                    decreases n - i,
                {
                    disks.push(disk_row(&list[i]));
                    i = i + 1;
                }
            },
            None => {},
        },
        None => {},
    }
    StatsShown { cpu, ram, ram_used, temp, uptime, disks }
}

/// What is asked before the power state of a machine is changed.
pub fn power_question(action: PowerAction, name: &str) -> (r: String)
    ensures
        r@ == match action {
            PowerAction::Shutdown => "Shut down "@,
            PowerAction::Reboot => "Reboot "@,
            PowerAction::Suspend => "Suspend "@,
        } + name@ + "?"@,
{
    concat3(
        match action {
            PowerAction::Shutdown => "Shut down ",
            PowerAction::Reboot => "Reboot ",
            PowerAction::Suspend => "Suspend ",
        },
        name,
        "?",
    )
}

/// What can be done with a machine from its card.
#[derive(Debug)]
pub struct Offers {
    pub power: Vec<PowerAction>,
    pub wake: bool,
}

/// What can be done with a machine from its card: the host is never powered off,
/// and only a machine with a MAC address is woken.
pub fn offers(d: &Device) -> (r: Offers)
    ensures
        r.power@ == if d.is_host {
            seq![]
        } else {
            seq![PowerAction::Reboot, PowerAction::Suspend, PowerAction::Shutdown]
        },
        r.wake == (d.wol is Some),
{
    let mut power: Vec<PowerAction> = Vec::new();
    if !d.is_host {
        power.push(PowerAction::Reboot);
        power.push(PowerAction::Suspend);
        power.push(PowerAction::Shutdown);
    }
    assert(d.is_host ==> power@ =~= seq![]);
    assert(!d.is_host ==> power@ =~= seq![
        PowerAction::Reboot,
        PowerAction::Suspend,
        PowerAction::Shutdown,
    ]);
    Offers { power, wake: d.wol.is_some() }
}

/// The state of a machine's card.
#[derive(Debug)]
pub struct DeviceCard {
    pub stats: Option<Json>,
    pub error: Option<String>,
    pub busy: bool,
}

impl DeviceCard {
    /// A card that has asked for nothing yet.
    pub fn new() -> (r: DeviceCard)
        ensures
            r == (DeviceCard { stats: None, error: None, busy: false }),
    {
        DeviceCard { stats: None, error: None, busy: false }
    }

    /// A request starts.
    pub fn started(&mut self)
        ensures
            *final(self) == (DeviceCard { busy: true, ..*old(self) }),
    {
        self.busy = true;
    }

    /// The statistics came, or the request for them failed: then what was shown
    /// stays.
    pub fn loaded(&mut self, result: Result<Json, String>)
        ensures
            *final(self) == match result {
                Ok(v) => DeviceCard { stats: Some(v), error: None, busy: false },
                Err(e) => DeviceCard { stats: old(self).stats, error: Some(e), busy: false },
            },
    {
        match result {
            Ok(v) => {
                self.stats = Some(v);
                self.error = None;
            },
            Err(e) => {
                self.error = Some(e);
            },
        }
        self.busy = false;
    }

    /// A command was answered.
    pub fn acted(&mut self, result: Result<(), String>)
        ensures
            *final(self) == match result {
                Ok(()) => DeviceCard { busy: false, ..*old(self) },
                Err(e) => DeviceCard { error: Some(e), busy: false, ..*old(self) },
            },
    {
        match result {
            Ok(()) => {},
            Err(e) => {
                self.error = Some(e);
            },
        }
        self.busy = false;
    }

    /// The label of the button that loads the statistics.
    pub fn load_label(&self) -> (r: &'static str)
        ensures
            r@ == if self.stats is Some {
                "Refresh"@
            } else {
                "Load stats"@
            },
    {
        if self.stats.is_some() {
            "Refresh"
        } else {
            "Load stats"
        }
    }
}

// ---------------------------------------------------------------------------
// Files
// ---------------------------------------------------------------------------

/// The directories on the way to a path, each with its own path.
pub open spec fn crumbs_of(parts: Seq<Seq<char>>) -> Seq<(Seq<char>, Seq<char>)>
    decreases parts.len(),
{
    if parts.len() == 0 {
        seq![]
    } else {
        let before = crumbs_of(parts.drop_last());
        let name = parts.last();
        if name.len() == 0 {
            before
        } else {
            before.push((name, crumb_end(before) + seq!['/'] + name))
        }
    }
}

/// The path of the last directory so far.
pub open spec fn crumb_end(crumbs: Seq<(Seq<char>, Seq<char>)>) -> Seq<char> {
    if crumbs.len() == 0 {
        seq![]
    } else {
        crumbs.last().1
    }
}

/// The directories on the way to a path that starts at the top are its names, and
/// the way ends at the path itself.
pub proof fn the_crumbs_lead_to_the_path(names: Seq<Seq<char>>)
    requires
        names.len() > 0,
        forall|i: int|
            0 <= i < names.len() ==> (#[trigger] names[i]).len() > 0 && !names[i].contains('/'),
    ensures
        crumbs_of(split(seq!['/'] + join(names, seq!['/']), '/')).len() == names.len(),
        forall|i: int|
            0 <= i < names.len() ==> (#[trigger] crumbs_of(
                split(seq!['/'] + join(names, seq!['/']), '/'),
            )[i]).0 == names[i],
        crumb_end(crumbs_of(split(seq!['/'] + join(names, seq!['/']), '/'))) == seq!['/'] + join(
            names,
            seq!['/'],
        ),
{
    let none = Seq::<char>::empty();
    let j = join(names, seq!['/']);
    assert(seq!['/'] + j =~= none + seq!['/'] + j);
    lemma_split_head(none, '/', j);
    split_undoes_join(names, '/');
    lemma_crumbs(names);
}

/// The directories on the way through names.
proof fn lemma_crumbs(names: Seq<Seq<char>>)
    requires
        forall|i: int| 0 <= i < names.len() ==> (#[trigger] names[i]).len() > 0,
    ensures
        crumbs_of(seq![Seq::<char>::empty()] + names).len() == names.len(),
        forall|i: int|
            0 <= i < names.len() ==> (#[trigger] crumbs_of(
                seq![Seq::<char>::empty()] + names,
            )[i]).0 == names[i],
        crumb_end(crumbs_of(seq![Seq::<char>::empty()] + names)) == if names.len() == 0 {
            Seq::<char>::empty()
        } else {
            seq!['/'] + join(names, seq!['/'])
        },
    decreases names.len(),
{
    let none = Seq::<char>::empty();
    let all = seq![none] + names;
    if names.len() == 0 {
        assert(all.drop_last() =~= Seq::<Seq<char>>::empty());
        assert(crumbs_of(all.drop_last()) =~= Seq::<(Seq<char>, Seq<char>)>::empty());
        assert(all.last() == none);
    } else {
        let front = names.drop_last();
        assert forall|i: int| 0 <= i < front.len() implies (#[trigger] front[i]).len() > 0 by {
            assert(front[i] == names[i]);
        }
        lemma_crumbs(front);
        assert(all.drop_last() =~= seq![none] + front);
        assert(all.last() == names[names.len() - 1]);
        let before = crumbs_of(seq![none] + front);
        assert(crumbs_of(all) == before.push(
            (names.last(), crumb_end(before) + seq!['/'] + names.last()),
        ));
        if front.len() == 0 {
            assert(none + seq!['/'] + names.last() =~= seq!['/'] + names.last());
            assert(join(names, seq!['/']) == names[0]);
        } else {
            assert(seq!['/'] + join(front, seq!['/']) + seq!['/'] + names.last() =~= seq!['/']
                + join(names, seq!['/']));
        }
    }
}

/// The texts of a list of pairs.
pub open spec fn pair_views(v: Seq<(String, String)>) -> Seq<(Seq<char>, Seq<char>)> {
    Seq::new(v.len(), |i: int| (v[i].0@, v[i].1@))
}

/// The directories on the way to a path, each with its own path.
pub fn crumbs(path: &str) -> (r: Vec<(String, String)>)
    ensures
        pair_views(r@) == crumbs_of(split(path@, '/')),
{
    let parts = split_char(path, '/');
    let ghost pv = views(parts@);
    let mut out: Vec<(String, String)> = Vec::new();
    let mut end = String::new();
    let n: usize = parts.len();
    let mut i: usize = 0;
    assert(pv.take(0) =~= Seq::<Seq<char>>::empty());
    assert(pair_views(out@) =~= crumbs_of(pv.take(0)));
    while i < n
        invariant
            i <= n,
            n == parts@.len(),
            pv == views(parts@),
            pair_views(out@) == crumbs_of(pv.take(i as int)),
            end@ == crumb_end(pair_views(out@)),
        decreases n - i,
    {
        let ghost before = pair_views(out@);
        assert(pv.take(i + 1).drop_last() =~= pv.take(i as int));
        assert(pv.take(i + 1).last() == parts@[i as int]@);
        let name = parts[i].as_str();
        if !name.is_empty() {
            proof {
                reveal_strlit("/");
                assert("/"@ =~= seq!['/']);
            }
            end = concat3(end.as_str(), "/", name);
            out.push((parts[i].clone(), end.clone()));
            assert(pair_views(out@) =~= before.push((name@, end@)));
        }
        i = i + 1;
    }
    assert(pv.take(i as int) =~= pv);
    out
}

/// Where the button one level up leads to, where there is one.
pub fn up(l: &Listing) -> (r: Option<String>)
    ensures
        opt_view(r) == if l.at_root {
            None
        } else {
            opt_view(l.parent)
        },
{
    if l.at_root {
        None
    } else {
        match &l.parent {
            Some(p) => Some(p.clone()),
            None => None,
        }
    }
}

/// What a click on an entry does.
#[derive(Debug)]
pub enum Opened {
    /// The directory is listed.
    Directory(String),
    /// The file is read.
    File(String),
}

/// What a click on an entry does.
pub fn open(entry: &Entry) -> (r: Opened)
    ensures
        match r {
            Opened::Directory(p) => entry.is_dir && p@ == entry.path@,
            Opened::File(p) => !entry.is_dir && p@ == entry.path@,
        },
{
    if entry.is_dir {
        Opened::Directory(entry.path.clone())
    } else {
        Opened::File(entry.path.clone())
    }
}

/// The state of a file browser.
#[derive(Debug)]
pub struct FileBrowser {
    pub listing: Option<Listing>,
    pub error: Option<String>,
    /// The path and the text of the file that is shown.
    pub preview: Option<(String, String)>,
    pub loading: bool,
}

impl FileBrowser {
    /// A browser that has asked for nothing yet.
    pub fn new() -> (r: FileBrowser)
        ensures
            r == (FileBrowser { listing: None, error: None, preview: None, loading: false }),
    {
        FileBrowser { listing: None, error: None, preview: None, loading: false }
    }

    /// A request for a directory starts.
    pub fn started(&mut self)
        ensures
            *final(self) == (FileBrowser { loading: true, ..*old(self) }),
    {
        self.loading = true;
    }

    /// A directory came, or the request for it failed: then what was shown stays.
    pub fn listed(&mut self, result: Result<Listing, String>)
        ensures
            *final(self) == match result {
                Ok(l) => FileBrowser {
                    listing: Some(l),
                    error: None,
                    preview: None,
                    loading: false,
                },
                Err(e) => FileBrowser { error: Some(e), loading: false, ..*old(self) },
            },
    {
        match result {
            Ok(l) => {
                self.listing = Some(l);
                self.preview = None;
                self.error = None;
            },
            Err(e) => {
                self.error = Some(e);
            },
        }
        self.loading = false;
    }

    /// A file came, or the request for it failed.
    pub fn read(&mut self, path: String, result: Result<String, String>)
        ensures
            *final(self) == match result {
                Ok(text) => FileBrowser {
                    preview: Some((path, text)),
                    error: None,
                    ..*old(self)
                },
                Err(e) => FileBrowser { error: Some(e), ..*old(self) },
            },
    {
        match result {
            Ok(text) => {
                self.preview = Some((path, text));
                self.error = None;
            },
            Err(e) => {
                self.error = Some(e);
            },
        }
    }

    /// The file is closed.
    pub fn closed(&mut self)
        ensures
            *final(self) == (FileBrowser { preview: None, ..*old(self) }),
    {
        self.preview = None;
    }
}

// ---------------------------------------------------------------------------
// Containers
// ---------------------------------------------------------------------------

/// What can be done with a container.
pub open spec fn actions_for(running: bool) -> Seq<ContainerAction> {
    if running {
        seq![ContainerAction::Stop, ContainerAction::Restart]
    } else {
        seq![ContainerAction::Start]
    }
}

/// What can be done with a container: a running one is stopped or restarted,
/// another one is started.
pub fn container_actions(running: bool) -> (r: Vec<ContainerAction>)
    ensures
        r@ == actions_for(running),
{
    let mut out: Vec<ContainerAction> = Vec::new();
    if running {
        out.push(ContainerAction::Stop);
        out.push(ContainerAction::Restart);
    } else {
        out.push(ContainerAction::Start);
    }
    assert(out@ =~= actions_for(running));
    out
}

/// What is asked before something is done with a container: only stopping one is
/// asked about.
pub fn container_question(action: ContainerAction, name: &str) -> (r: Option<String>)
    ensures
        opt_view(r) == if action == ContainerAction::Stop {
            Some("Stop "@ + name@ + "?"@)
        } else {
            None
        },
{
    match action {
        ContainerAction::Stop => Some(concat3("Stop ", name, "?")),
        _ => None,
    }
}

/// The state of the container panel.
#[derive(Debug)]
pub struct ContainersPanel {
    pub items: Vec<Container>,
    pub error: Option<String>,
    /// The container that something is being done with.
    pub busy: Option<String>,
}

impl ContainersPanel {
    /// A panel that has asked for nothing yet.
    pub fn new() -> (r: ContainersPanel)
        ensures
            r.items@.len() == 0,
            r.error is None,
            r.busy is None,
    {
        ContainersPanel { items: Vec::new(), error: None, busy: None }
    }

    /// The containers came, or the request for them failed: then what was shown
    /// stays.
    pub fn loaded(&mut self, result: Result<Vec<Container>, String>)
        ensures
            *final(self) == match result {
                Ok(items) => ContainersPanel { items, error: None, ..*old(self) },
                Err(e) => ContainersPanel { error: Some(e), ..*old(self) },
            },
    {
        match result {
            Ok(items) => {
                self.items = items;
                self.error = None;
            },
            Err(e) => {
                self.error = Some(e);
            },
        }
    }

    /// Something is being done with a container.
    pub fn started(&mut self, name: String)
        ensures
            *final(self) == (ContainersPanel { busy: Some(name), ..*old(self) }),
    {
        self.busy = Some(name);
    }

    /// It was done, or it failed, and the containers were listed again: the rows
    /// show what happened, and an error stays to be read.
    pub fn acted(&mut self, done: Result<(), String>, items: Result<Vec<Container>, String>)
        ensures
            final(self).busy is None,
            final(self).error == match done {
                Ok(()) => old(self).error,
                Err(e) => Some(e),
            },
            final(self).items == match items {
                Ok(list) => list,
                Err(_) => old(self).items,
            },
    {
        match done {
            Ok(()) => {},
            Err(e) => {
                self.error = Some(e);
            },
        }
        match items {
            Ok(list) => {
                self.items = list;
            },
            Err(_) => {},
        }
        self.busy = None;
    }

    /// Is something being done with that container?
    pub fn is_busy(&self, name: &str) -> (r: bool)
        ensures
            r == (opt_view(self.busy) == Some(name@)),
    {
        match &self.busy {
            Some(b) => same(b.as_str(), name),
            None => false,
        }
    }
}

// ---------------------------------------------------------------------------
// Laws of what is shown
// ---------------------------------------------------------------------------

/// The host is shown as online. Another machine is where some status of its own
/// id says so, and the status of no other machine counts.
pub proof fn a_machine_is_shown_by_its_own_status(d: Device, statuses: Seq<DeviceStatus>, i: int)
    ensures
        d.is_host ==> is_online(d, statuses),
        0 <= i < statuses.len() && statuses[i].id@ == d.id@ && statuses[i].online ==> is_online(
            d,
            statuses,
        ),
        !d.is_host && (forall|k: int|
            0 <= k < statuses.len() && (#[trigger] statuses[k]).id@ == d.id@
                ==> !statuses[k].online) ==> !is_online(d, statuses),
{
}

/// Numbers and counts are read from under their keys; what is missing is none, or
/// zero.
pub proof fn numbers_are_read_from_under_their_keys(v: JsonView, key: Seq<char>, n: i64, c: u64)
    ensures
        v.get(key) == Some(crate::json::int_view(n)) ==> number_at(v, key) == Some(n),
        v.get(key) == Some(JsonView::Number(crate::json::NumberView::PosInt(c))) ==> count_at(
            v,
            key,
        ) == c,
        v.get(key) is None || v.get(key) == Some(JsonView::Null) ==> number_at(v, key) is None
            && count_at(v, key) == 0,
{
}

/// A share is the whole percentage, cut off: so many hundredths of the total are
/// in the part, and one more are not. A total is all of itself, and a part of it
/// is never more than all of it.
pub proof fn a_share_is_the_whole_percentage(part: int, total: int)
    requires
        total > 0,
        part >= 0,
    ensures
        share(part, total) * total <= part * 100 < (share(part, total) + 1) * total,
        share(-part, total) == -share(part, total),
        share(total, total) == 100,
        part <= total ==> 0 <= share(part, total) <= 100,
        share(part, 0) == 0,
{
    let x = part * 100;
    vstd::arithmetic::div_mod::lemma_fundamental_div_mod(x, total);
    let q = x / total;
    assert(x == total * q + x % total);
    assert(0 <= x % total < total) by {
        vstd::arithmetic::div_mod::lemma_mod_bound(x, total);
    }
    assert(q * total == total * q) by (nonlinear_arith);
    assert((q + 1) * total == q * total + total) by (nonlinear_arith);
    assert((total * 100) / total == 100) by {
        vstd::arithmetic::div_mod::lemma_div_by_multiple(100, total);
        assert(100 * total == total * 100);
    }
    assert(part == 0 ==> 0int / total == 0) by {
        vstd::arithmetic::div_mod::lemma_div_of0(total);
    }
    if part <= total {
        vstd::arithmetic::div_mod::lemma_div_is_ordered(x, total * 100, total);
        vstd::arithmetic::div_mod::lemma_div_pos_is_pos(x, total);
    }
}

/// The row of a disk names its mount point, its use, its size, and the share of
/// the one in the other.
pub proof fn a_disk_row_shows_the_disk(
    r: DiskRow,
    d: JsonView,
    mount: Seq<char>,
    used: u64,
    total: u64,
)
    requires
        shows_disk(r, d),
        d.get("mount"@) == Some(JsonView::Str(mount)),
        d.get("used"@) == Some(JsonView::Number(crate::json::NumberView::PosInt(used))),
        d.get("total"@) == Some(JsonView::Number(crate::json::NumberView::PosInt(total))),
    ensures
        r.mount@ == mount,
        r.used == used,
        r.total == total,
        r.percent == share(used as int, total as int),
{
}

/// The card of a machine shows the load, the share and the amount of the memory
/// in use, the temperature, the uptime, and every disk in its order, each read
/// from under its own name.
pub proof fn a_card_shows_the_statistics(r: StatsShown, s: JsonView, total: i64, used: i64)
    requires
        shows_stats(r, s),
        s.get("ram_total"@) == Some(crate::json::int_view(total)),
        s.get("ram_used"@) == Some(crate::json::int_view(used)),
        0 <= used,
    ensures
        s.get("cpu"@) matches Some(j) ==> r.cpu == j.as_i64(),
        s.get("cpu"@) is None ==> r.cpu is None,
        s.get("temp"@) matches Some(j) ==> r.temp == j.as_i64(),
        s.get("temp"@) is None ==> r.temp is None,
        r.ram_used == used,
        total > 0 ==> r.ram@ == signed_decimal(share(used as int, total as int)) + "%"@,
        total <= 0 ==> r.ram@ == "—"@,
        s.get("uptime"@) matches Some(JsonView::Str(t)) ==> r.uptime@ == t,
        s.get("disks"@) matches Some(JsonView::Array(v)) ==> r.disks@.len() == v.len()
            && forall|i: int| 0 <= i < v.len() ==> shows_disk(#[trigger] r.disks@[i], v[i]),
        s.get("disks"@) is None ==> r.disks@.len() == 0,
{
}

/// A running container can be stopped and restarted, another one can be started,
/// and nothing else can be done.
pub proof fn what_can_be_done_with_a_container(a: ContainerAction)
    ensures
        actions_for(true).contains(a) <==> a is Stop || a is Restart,
        actions_for(false).contains(a) <==> a is Start,
{
    assert(actions_for(true)[0] is Stop && actions_for(true)[1] is Restart);
    assert(actions_for(false)[0] is Start);
}

/// Every directory on the way leads to itself: to the path through the names up to
/// its own.
pub proof fn every_crumb_leads_to_its_directory(names: Seq<Seq<char>>, i: int)
    requires
        0 <= i < names.len(),
        forall|k: int| 0 <= k < names.len() ==> (#[trigger] names[k]).len() > 0,
    ensures
        crumbs_of(seq![Seq::<char>::empty()] + names)[i].1 == seq!['/'] + join(
            names.take(i + 1),
            seq!['/'],
        ),
    decreases names.len(),
{
    lemma_crumbs(names);
    let parts = seq![Seq::<char>::empty()] + names;
    let front = names.drop_last();
    assert(parts.drop_last() =~= seq![Seq::<char>::empty()] + front);
    assert(parts.last() == names[names.len() - 1]);
    if i < names.len() - 1 {
        assert forall|k: int| 0 <= k < front.len() implies (#[trigger] front[k]).len() > 0 by {
            assert(front[k] == names[k]);
        }
        lemma_crumbs(front);
        every_crumb_leads_to_its_directory(front, i);
        assert(front.take(i + 1) =~= names.take(i + 1));
    } else {
        assert(names.take(i + 1) =~= names);
    }
}

/// The texts of pairs are those of their first and of their second part, in their
/// order.
pub proof fn pairs_keep_their_parts(v: Seq<(String, String)>, i: int)
    requires
        0 <= i < v.len(),
    ensures
        pair_views(v).len() == v.len(),
        pair_views(v)[i].0 == v[i].0@,
        pair_views(v)[i].1 == v[i].1@,
{
}

/// Where the memory is not reported, no share of it is shown, and none of it is in
/// use. An amount below zero is shown as the count that its bits write.
pub proof fn an_unknown_memory_shows_a_dash(r: StatsShown, s: JsonView, used: i64)
    requires
        shows_stats(r, s),
    ensures
        s.get("ram_total"@) is None ==> r.ram@ == "—"@,
        s.get("ram_used"@) is None ==> r.ram_used == 0,
        s.get("ram_used"@) == Some(crate::json::int_view(used)) && used < 0 ==> r.ram_used == used
            + 0x1_0000_0000_0000_0000,
        s.get("uptime"@) is None ==> r.uptime@ == ""@,
{
}

} // verus!
