//! The configuration: what is stored, its defaults, and how a stored document
//! becomes a usable one.

use vstd::prelude::*;

use crate::numbers::{all_digits, parse_unsigned, parse_up_to};
use crate::shell::port_used;
use crate::text::{
    begins, blank, concat3, is_blank, is_digit, lemma_split_head, lemma_split_plain, opt_view, same,
    split, split_char, starts_with, trim, trimmed, views,
};
use crate::widgets::{default_settings, fields_of, type_of, Widget, WidgetKind};

verus! {

// ---------------------------------------------------------------------------
// What is stored
// ---------------------------------------------------------------------------

/// Settings of the dashboard as a whole.
#[derive(Debug, Clone)]
pub struct Settings {
    pub section_order: Vec<String>,
    pub show_devices: bool,
    pub show_links: bool,
    pub show_quick_actions: bool,
    pub show_tasks: bool,
    pub theme: ThemeColors,
    /// Counts the changes, so that the dashboard knows when to fetch again.
    pub revision: u64,
}

/// The colours and measures of a theme.
#[derive(Debug, Clone, PartialEq)]
pub struct ThemeColors {
    pub bg: String,
    pub cards: String,
    pub border: String,
    pub text: String,
    pub text_muted: String,
    pub accent: String,
    pub danger: String,
    pub warning: String,
    pub glass: u8,
    pub blur: u8,
    pub border_radius: u8,
    pub wallpaper: String,
    pub max_width_desktop: u8,
}

/// A machine.
#[derive(Debug, Clone)]
pub struct Device {
    pub id: String,
    pub name: String,
    pub ip: String,
    pub icon: String,
    pub is_host: bool,
    pub ssh: Option<SshConfig>,
    pub wol: Option<WolConfig>,
    pub connect: Option<ConnectConfig>,
    pub docker: Option<DockerConfig>,
    pub alerts: Alerts,
    /// The directory that the file browser is confined to on this machine.
    pub files_root: Option<String>,
}

/// How to log in to a machine.
#[derive(Debug, Clone)]
pub struct SshConfig {
    pub user: String,
    pub port: u16,
}

/// How to wake a machine.
#[derive(Debug, Clone)]
pub struct WolConfig {
    pub mac: String,
    pub broadcast: String,
}

/// How else to connect to a machine.
#[derive(Debug, Clone)]
pub struct ConnectConfig {
    pub rdp: String,
    pub vnc: String,
    pub web: String,
}

/// The containers of a machine.
#[derive(Debug, Clone)]
pub struct DockerConfig {
    pub containers: Vec<ContainerRef>,
}

/// A container: its bare name, or its name and where it can be reached.
#[derive(Debug, Clone)]
pub enum ContainerRef {
    Name(String),
    Full { name: String, web: String, rdp: String, vnc: String },
}

/// When to warn about a machine.
#[derive(Debug, Clone)]
pub struct Alerts {
    pub online: bool,
    pub cpu: u8,
    pub ram: u8,
    pub cpu_temp: u8,
    pub disk_usage: u8,
}

/// A recurring task.
#[derive(Debug, Clone)]
pub struct Task {
    pub id: String,
    pub name: String,
    pub kind: String,
    pub enabled: bool,
    pub schedule: Schedule,
    pub target: String,
    pub last_status: String,
}

/// When a task runs.
#[derive(Debug, Clone, PartialEq, Eq)]
pub enum Schedule {
    Hourly { time: String },
    Daily { time: String },
    Weekly { time: String, day: u8 },
    Monthly { time: String, date: u8 },
}

/// A bookmark.
#[derive(Debug, Clone)]
pub struct Link {
    pub id: String,
    pub name: String,
    pub url: String,
    pub icon: String,
    pub note: String,
}

/// A script to start from the dashboard.
#[derive(Debug, Clone)]
pub struct QuickAction {
    pub id: String,
    pub name: String,
    pub path: String,
    pub icon: String,
    pub note: String,
}

/// The whole document.
#[derive(Debug)]
pub struct Config {
    pub settings: Settings,
    pub devices: Vec<Device>,
    pub links: Vec<Link>,
    pub quick_actions: Vec<QuickAction>,
    pub tasks: Vec<Task>,
    pub widgets: Vec<Widget>,
    pub onboarding_done: bool,
}

// ---------------------------------------------------------------------------
// Defaults
// ---------------------------------------------------------------------------

/// Are these the default colours and measures?
pub open spec fn is_default_theme(t: ThemeColors) -> bool {
    &&& t.bg@ == "#0f0f10"@
    &&& t.cards@ == "#181819"@
    &&& t.border@ == "#2b2b2e"@
    &&& t.text@ == "#e8e8e6"@
    &&& t.text_muted@ == "#a1a1a6"@
    &&& t.accent@ == "#2ed573"@
    &&& t.danger@ == "#ff4757"@
    &&& t.warning@ == "#ffa502"@
    &&& t.glass == 0
    &&& t.blur == 0
    &&& t.border_radius == 6
    &&& t.wallpaper@.len() == 0
    &&& t.max_width_desktop == 70
}

/// The sections of the dashboard, in their default order.
pub open spec fn default_sections() -> Seq<Seq<char>> {
    seq!["devices"@, "links"@, "quick_actions"@, "tasks"@]
}

/// Are these the settings of a fresh dashboard?
pub open spec fn are_fresh_settings(s: Settings) -> bool {
    &&& views(s.section_order@) == default_sections()
    &&& s.show_devices
    &&& s.show_links
    &&& s.show_quick_actions
    &&& s.show_tasks
    &&& is_default_theme(s.theme)
    &&& s.revision == 0
}

/// Are these the default thresholds?
pub open spec fn are_default_alerts(a: Alerts) -> bool {
    a.online && a.cpu == 90 && a.ram == 90 && a.cpu_temp == 80 && a.disk_usage == 90
}

/// Is nothing configured for the machine but these?
pub open spec fn is_bare_device(
    d: Device,
    id: Seq<char>,
    name: Seq<char>,
    ip: Seq<char>,
    icon: Seq<char>,
    is_host: bool,
) -> bool {
    &&& d.id@ == id
    &&& d.name@ == name
    &&& d.ip@ == ip
    &&& d.icon@ == icon
    &&& d.is_host == is_host
    &&& d.ssh is None
    &&& d.wol is None
    &&& d.connect is None
    &&& d.docker is None
    &&& are_default_alerts(d.alerts)
    &&& d.files_root is None
}

/// Is this the entry for the machine that the dashboard runs on?
pub open spec fn is_default_host(d: Device) -> bool {
    is_bare_device(d, "host"@, "MinDash Host"@, "localhost"@, "cpu"@, true)
}

impl Default for ThemeColors {
    fn default() -> (r: ThemeColors)
        ensures
            is_default_theme(r),
    {
        ThemeColors {
            bg: String::from_str("#0f0f10"),
            cards: String::from_str("#181819"),
            border: String::from_str("#2b2b2e"),
            text: String::from_str("#e8e8e6"),
            text_muted: String::from_str("#a1a1a6"),
            accent: String::from_str("#2ed573"),
            danger: String::from_str("#ff4757"),
            warning: String::from_str("#ffa502"),
            glass: 0,
            blur: 0,
            border_radius: 6,
            wallpaper: String::new(),
            max_width_desktop: 70,
        }
    }
}

impl Default for Settings {
    fn default() -> (r: Settings)
        ensures
            are_fresh_settings(r),
    {
        Settings::with_defaults()
    }
}

impl Settings {
    /// The sections of the dashboard, in their default order.
    fn default_order() -> (r: Vec<String>)
        ensures
            views(r@) == default_sections(),
    {
        let mut v: Vec<String> = Vec::new();
        v.push(String::from_str("devices"));
        v.push(String::from_str("links"));
        v.push(String::from_str("quick_actions"));
        v.push(String::from_str("tasks"));
        assert(views(v@) =~= default_sections());
        v
    }

    /// The settings of a fresh dashboard: every section is shown.
    pub fn with_defaults() -> (r: Settings)
        ensures
            are_fresh_settings(r),
    {
        Settings {
            section_order: Settings::default_order(),
            show_devices: true,
            show_links: true,
            show_quick_actions: true,
            show_tasks: true,
            theme: ThemeColors::default(),
            revision: 0,
        }
    }
}

impl Default for Alerts {
    fn default() -> (r: Alerts)
        ensures
            are_default_alerts(r),
    {
        Alerts { online: true, cpu: 90, ram: 90, cpu_temp: 80, disk_usage: 90 }
    }
}

impl Default for SshConfig {
    fn default() -> (r: SshConfig)
        ensures
            r.user@.len() == 0,
            r.port == 0,
    {
        SshConfig { user: String::new(), port: 0 }
    }
}

impl Default for WolConfig {
    fn default() -> (r: WolConfig)
        ensures
            r.mac@.len() == 0,
            r.broadcast@.len() == 0,
    {
        WolConfig { mac: String::new(), broadcast: String::new() }
    }
}

impl Default for ConnectConfig {
    fn default() -> (r: ConnectConfig)
        ensures
            r.rdp@.len() == 0,
            r.vnc@.len() == 0,
            r.web@.len() == 0,
    {
        ConnectConfig { rdp: String::new(), vnc: String::new(), web: String::new() }
    }
}

impl Default for DockerConfig {
    fn default() -> (r: DockerConfig)
        ensures
            r.containers@.len() == 0,
    {
        DockerConfig { containers: Vec::new() }
    }
}

impl Default for Device {
    fn default() -> (r: Device)
        ensures
            is_bare_device(r, seq![], seq![], seq![], seq![], false),
    {
        Device {
            id: String::new(),
            name: String::new(),
            ip: String::new(),
            icon: String::new(),
            is_host: false,
            ssh: None,
            wol: None,
            connect: None,
            docker: None,
            alerts: Alerts::default(),
            files_root: None,
        }
    }
}

impl Default for Schedule {
    fn default() -> (r: Schedule)
        ensures
            r matches Schedule::Daily { time } && time@ == "03:00"@,
    {
        Schedule::Daily { time: String::from_str("03:00") }
    }
}

impl Default for Task {
    fn default() -> (r: Task)
        ensures
            r.id@.len() == 0,
            r.name@.len() == 0,
            r.kind@.len() == 0,
            !r.enabled,
            r.schedule matches Schedule::Daily { time } && time@ == "03:00"@,
            r.target@.len() == 0,
            r.last_status@.len() == 0,
    {
        Task {
            id: String::new(),
            name: String::new(),
            kind: String::new(),
            enabled: false,
            schedule: Schedule::default(),
            target: String::new(),
            last_status: String::new(),
        }
    }
}

impl Default for Link {
    fn default() -> (r: Link)
        ensures
            r.id@.len() == 0,
            r.name@.len() == 0,
            r.url@.len() == 0,
            r.icon@.len() == 0,
            r.note@.len() == 0,
    {
        Link {
            id: String::new(),
            name: String::new(),
            url: String::new(),
            icon: String::new(),
            note: String::new(),
        }
    }
}

impl Default for QuickAction {
    fn default() -> (r: QuickAction)
        ensures
            r.id@.len() == 0,
            r.name@.len() == 0,
            r.path@.len() == 0,
            r.icon@.len() == 0,
            r.note@.len() == 0,
    {
        QuickAction {
            id: String::new(),
            name: String::new(),
            path: String::new(),
            icon: String::new(),
            note: String::new(),
        }
    }
}

impl Default for Config {
    fn default() -> (r: Config)
        ensures
            are_fresh_settings(r.settings),
            r.devices@.len() == 0,
            r.links@.len() == 0,
            r.quick_actions@.len() == 0,
            r.tasks@.len() == 0,
            r.widgets@.len() == 0,
            !r.onboarding_done,
    {
        Config {
            settings: Settings::default(),
            devices: Vec::new(),
            links: Vec::new(),
            quick_actions: Vec::new(),
            tasks: Vec::new(),
            widgets: Vec::new(),
            onboarding_done: false,
        }
    }
}

// ---------------------------------------------------------------------------
// Devices
// ---------------------------------------------------------------------------

impl SshConfig {
    /// The port to connect to.
    pub fn port_or_default(&self) -> (r: u16)
        ensures
            r == port_used(self.port),
    {
        if self.port == 0 {
            22
        } else {
            self.port
        }
    }
}

impl Device {
    /// The user to log in as: the configured one, or root where that is blank.
    pub open spec fn login(self) -> Seq<char> {
        match self.ssh {
            Some(s) => if is_blank(s.user@) {
                "root"@
            } else {
                s.user@
            },
            None => "root"@,
        }
    }

    /// The SSH port to connect to.
    pub open spec fn port(self) -> u16 {
        match self.ssh {
            Some(s) => port_used(s.port),
            None => 22,
        }
    }

    /// Where the file browser starts.
    pub open spec fn browse_root(self) -> Seq<char> {
        match self.files_root {
            Some(s) => if is_blank(s@) {
                "/"@
            } else {
                trimmed(s@)
            },
            None => "/"@,
        }
    }

    /// Is this the machine that the dashboard runs on? The designated host is,
    /// and so is any machine at a loopback address or at none.
    pub open spec fn local(self) -> bool {
        let ip = trimmed(self.ip@);
        ||| self.is_host
        ||| ip.len() == 0
        ||| ip == "localhost"@
        ||| ip == "::1"@
        ||| begins(ip, "127."@)
    }

    /// The user to log in as, root where none is set.
    pub fn ssh_user(&self) -> (r: String)
        ensures
            r@ == self.login(),
            !is_blank(r@),
    {
        proof {
            reveal_strlit("root");
            crate::text::lemma_not_blank("root"@, 0);
        }
        match &self.ssh {
            Some(s) => if blank(s.user.as_str()) {
                String::from_str("root")
            } else {
                s.user.clone()
            },
            None => String::from_str("root"),
        }
    }

    /// The SSH port to connect to.
    pub fn ssh_port(&self) -> (r: u16)
        ensures
            r == self.port(),
            r != 0,
    {
        match &self.ssh {
            Some(s) => s.port_or_default(),
            None => 22,
        }
    }

    /// Where the file browser starts, `/` where nothing is set.
    pub fn files_root(&self) -> (r: String)
        ensures
            r@ == self.browse_root(),
            r@.len() > 0,
    {
        proof {
            reveal_strlit("/");
        }
        match &self.files_root {
            Some(s) => {
                let t = trim(s.as_str());
                if t.as_str().is_empty() {
                    String::from_str("/")
                } else {
                    t
                }
            },
            None => String::from_str("/"),
        }
    }

    /// The name to show, which is never empty: that of the machine, or its id
    /// where the name is blank. A machine with neither is called unnamed.
    pub fn display_name(&self) -> (r: &str)
        ensures
            r@ == if !is_blank(self.name@) {
                self.name@
            } else if self.id@.len() > 0 {
                self.id@
            } else {
                "Unnamed"@
            },
            r@.len() > 0,
    {
        proof {
            reveal_strlit("Unnamed");
        }
        if !blank(self.name.as_str()) {
            self.name.as_str()
        } else if !self.id.as_str().is_empty() {
            self.id.as_str()
        } else {
            "Unnamed"
        }
    }

    /// Is this the machine that the dashboard runs on?
    pub fn is_local(&self) -> (r: bool)
        ensures
            r == self.local(),
    {
        if self.is_host {
            return true;
        }
        let ip = trim(self.ip.as_str());
        let s = ip.as_str();
        proof {
            reveal_strlit("127.0.0.1");
            reveal_strlit("127.");
            assert("127.0.0.1"@.subrange(0, 4) =~= "127."@);
        }
        s.is_empty() || same(s, "127.0.0.1") || same(s, "localhost") || same(s, "::1")
            || starts_with(s, "127.")
    }

    /// The entry for the machine that the dashboard runs on.
    pub fn host_default() -> (r: Device)
        ensures
            is_default_host(r),
    {
        let mut d = Device::default();
        d.id = String::from_str("host");
        d.name = String::from_str("MinDash Host");
        d.ip = String::from_str("localhost");
        d.icon = String::from_str("cpu");
        d.is_host = true;
        d
    }
}

impl ContainerRef {
    /// The name of the container.
    pub open spec fn title(self) -> Seq<char> {
        match self {
            ContainerRef::Name(n) => n@,
            ContainerRef::Full { name, .. } => name@,
        }
    }

    /// The name of the container.
    pub fn name(&self) -> (r: &str)
        ensures
            r@ == self.title(),
    {
        match self {
            ContainerRef::Name(n) => n.as_str(),
            ContainerRef::Full { name, .. } => name.as_str(),
        }
    }

    /// The web address of the container; a bare name has none.
    pub fn web(&self) -> (r: &str)
        ensures
            r@ == match *self {
                ContainerRef::Name(_) => ""@,
                ContainerRef::Full { web, .. } => web@,
            },
    {
        match self {
            ContainerRef::Name(_) => "",
            ContainerRef::Full { web, .. } => web.as_str(),
        }
    }
}

// ---------------------------------------------------------------------------
// Schedules
// ---------------------------------------------------------------------------

impl Schedule {
    /// The time of day as it is written down.
    pub open spec fn written(self) -> Seq<char> {
        match self {
            Schedule::Hourly { time } => time@,
            Schedule::Daily { time } => time@,
            Schedule::Weekly { time, .. } => time@,
            Schedule::Monthly { time, .. } => time@,
        }
    }

    /// Hour and minute, falling back to 03:00.
    pub fn hour_minute(&self) -> (r: (u32, u32))
        ensures
            (r.0 as int, r.1 as int) == time_of_day(self.written()),
            r.0 <= 23,
            r.1 <= 59,
    {
        let raw = match self {
            Schedule::Hourly { time } => time,
            Schedule::Daily { time } => time,
            Schedule::Weekly { time, .. } => time,
            Schedule::Monthly { time, .. } => time,
        };
        let parts = split_char(raw.as_str(), ':');
        let ghost p = split(raw@, ':');
        assert(p == views(parts@));
        if parts.len() != 2 {
            return (3, 0);
        }
        assert(p[0] == parts@[0]@ && p[1] == parts@[1]@);
        match (parse_up_to(parts[0].as_str(), 23), parse_up_to(parts[1].as_str(), 59)) {
            (Some(h), Some(m)) => (h as u32, m as u32),
            _ => (3, 0),
        }
    }
}

/// The hour and the minute that a text such as `06:30` writes. What is no time
/// of day counts as 03:00.
pub open spec fn time_of_day(s: Seq<char>) -> (int, int) {
    let p = split(s, ':');
    if p.len() != 2 {
        (3, 0)
    } else {
        match (parse_unsigned(p[0], 23), parse_unsigned(p[1], 59)) {
            (Some(h), Some(m)) => (h as int, m as int),
            _ => (3, 0),
        }
    }
}

// ---------------------------------------------------------------------------
// The document
// ---------------------------------------------------------------------------

/// Does some machine of the list bear the mark of the host?
pub open spec fn has_host(devices: Seq<Device>) -> bool {
    exists|i: int| 0 <= i < devices.len() && (#[trigger] devices[i]).is_host
}

/// Is this a widget of that id and kind with nothing changed?
pub open spec fn is_seeded(w: Widget, id: Seq<char>, kind: WidgetKind) -> bool {
    &&& w.id@ == id
    &&& w.kind == kind
    &&& w.title@ == type_of(kind).title
    &&& w.icon@ == type_of(kind).icon
    &&& w.settings@ == default_settings(fields_of(kind))
}

/// Are these the widgets of a first start?
pub open spec fn are_seeded(widgets: Seq<Widget>) -> bool {
    &&& widgets.len() == 4
    &&& is_seeded(widgets[0], "clock-default"@, WidgetKind::Clock)
    &&& is_seeded(widgets[1], "weather-default"@, WidgetKind::Weather)
    &&& is_seeded(widgets[2], "overview-default"@, WidgetKind::Overview)
    &&& is_seeded(widgets[3], "news-default"@, WidgetKind::Rss)
}

/// Is this the document of a first start: default settings, the host, and the
/// seeded widgets?
pub open spec fn is_fresh(c: Config) -> bool {
    &&& are_fresh_settings(c.settings)
    &&& c.devices@.len() == 1
    &&& is_default_host(c.devices@[0])
    &&& c.links@.len() == 0
    &&& c.quick_actions@.len() == 0
    &&& c.tasks@.len() == 0
    &&& are_seeded(c.widgets@)
    &&& !c.onboarding_done
}

/// Is `after` the list `before` with the host in front, unless one is in it?
pub open spec fn host_ensured(before: Seq<Device>, after: Seq<Device>) -> bool {
    if has_host(before) {
        after == before
    } else {
        after.len() == before.len() + 1 && is_default_host(after[0]) && after.drop_first() == before
    }
}

/// Is `after` what becomes of the stored document `before`? An empty order of
/// sections is filled in, a missing host is added, and nothing else changes.
pub open spec fn is_mended(before: Config, after: Config) -> bool {
    &&& views(after.settings.section_order@) == if before.settings.section_order@.len() == 0 {
        default_sections()
    } else {
        views(before.settings.section_order@)
    }
    &&& after.settings.show_devices == before.settings.show_devices
    &&& after.settings.show_links == before.settings.show_links
    &&& after.settings.show_quick_actions == before.settings.show_quick_actions
    &&& after.settings.show_tasks == before.settings.show_tasks
    &&& after.settings.theme == before.settings.theme
    &&& after.settings.revision == before.settings.revision
    &&& host_ensured(before.devices@, after.devices@)
    &&& after.links == before.links
    &&& after.quick_actions == before.quick_actions
    &&& after.tasks == before.tasks
    &&& after.widgets == before.widgets
    &&& after.onboarding_done == before.onboarding_done
}

impl Config {
    /// The document of a first start.
    fn fresh() -> (r: Config)
        ensures
            is_fresh(r),
    {
        let mut cfg = Config::default();
        cfg.devices.push(Device::host_default());
        cfg.seed_widgets();
        cfg
    }

    /// Turns what a stored file gave into a usable document, and a warning to
    /// show where the file was unreadable: there was no file, or it read as a
    /// document, or it did not, for a reason. The result always has a host.
    pub fn load_or_default(raw: Option<Result<Config, String>>) -> (r: (Config, Option<String>))
        ensures
            match raw {
                None => is_fresh(r.0) && r.1 is None,
                Some(Ok(cfg)) => is_mended(cfg, r.0) && r.1 is None,
                Some(Err(e)) => is_fresh(r.0) && opt_view(r.1) == Some(
                    "config unreadable ("@ + e@ + "); started from defaults"@,
                ),
            },
            has_host(r.0.devices@),
            r.0.settings.section_order@.len() > 0,
    {
        match raw {
            None => {
                let cfg = Config::fresh();
                assert(cfg.devices@[0].is_host);
                assert(views(cfg.settings.section_order@).len() == 4);
                (cfg, None)
            },
            Some(Ok(cfg)) => {
                let mut cfg = cfg;
                let ghost before = cfg;
                if cfg.settings.section_order.len() == 0 {
                    cfg.settings.section_order = Settings::default_order();
                    assert(views(cfg.settings.section_order@).len() == 4);
                }
                cfg.ensure_host();
                assert(is_mended(before, cfg));
                (cfg, None)
            },
            Some(Err(e)) => {
                let cfg = Config::fresh();
                assert(cfg.devices@[0].is_host);
                assert(views(cfg.settings.section_order@).len() == 4);
                let why = concat3("config unreadable (", e.as_str(), "); started from defaults");
                (cfg, Some(why))
            },
        }
    }

    /// The widgets of a first start, so that the dashboard is not an empty page.
    fn seed_widgets(&mut self)
        ensures
            are_seeded(final(self).widgets@),
            final(self).settings == old(self).settings,
            final(self).devices == old(self).devices,
            final(self).links == old(self).links,
            final(self).quick_actions == old(self).quick_actions,
            final(self).tasks == old(self).tasks,
            final(self).onboarding_done == old(self).onboarding_done,
    {
        let mut v: Vec<Widget> = Vec::new();
        v.push(Widget::new("clock-default", WidgetKind::Clock));
        v.push(Widget::new("weather-default", WidgetKind::Weather));
        v.push(Widget::new("overview-default", WidgetKind::Overview));
        v.push(Widget::new("news-default", WidgetKind::Rss));
        self.widgets = v;
    }

    /// Puts the host in front where no machine bears its mark.
    fn ensure_host(&mut self)
        ensures
            host_ensured(old(self).devices@, final(self).devices@),
            has_host(final(self).devices@),
            final(self).settings == old(self).settings,
            final(self).links == old(self).links,
            final(self).quick_actions == old(self).quick_actions,
            final(self).tasks == old(self).tasks,
            final(self).widgets == old(self).widgets,
            final(self).onboarding_done == old(self).onboarding_done,
    {
        let ghost before = self.devices@;
        if !any_host(&self.devices) {
            self.devices.insert(0, Device::host_default());
            assert(self.devices@.drop_first() =~= before);
            assert(self.devices@[0].is_host);
        }
    }
}

/// Does some machine of the list bear the mark of the host?
fn any_host(devices: &Vec<Device>) -> (r: bool)
    ensures
        r == has_host(devices@),
{
    let mut i: usize = 0;
    while i < devices.len()
        invariant
            i <= devices@.len(),
            forall|j: int| 0 <= j < i ==> !(#[trigger] devices@[j]).is_host,
        decreases devices.len() - i,
    {
        if devices[i].is_host {
            return true;
        }
        i = i + 1;
    }
    false
}

// ---------------------------------------------------------------------------
// Laws of defaults and mending
// ---------------------------------------------------------------------------

/// A fresh dashboard is dark with a green accent, has slightly rounded
/// corners and no wallpaper, and shows its four sections in their order.
pub proof fn a_fresh_dashboard_shows_everything(s: Settings)
    requires
        are_fresh_settings(s),
    ensures
        s.theme.bg@ == "#0f0f10"@ && s.theme.cards@ == "#181819"@,
        s.theme.border@ == "#2b2b2e"@ && s.theme.text@ == "#e8e8e6"@,
        s.theme.text_muted@ == "#a1a1a6"@ && s.theme.accent@ == "#2ed573"@,
        s.theme.danger@ == "#ff4757"@ && s.theme.warning@ == "#ffa502"@,
        s.theme.glass == 0 && s.theme.blur == 0 && s.theme.border_radius == 6,
        s.theme.wallpaper@.len() == 0 && s.theme.max_width_desktop == 70,
        s.show_devices && s.show_links && s.show_quick_actions && s.show_tasks,
        s.revision == 0,
        s.section_order@.len() == 4,
        s.section_order@[0]@ == "devices"@ && s.section_order@[1]@ == "links"@,
        s.section_order@[2]@ == "quick_actions"@ && s.section_order@[3]@ == "tasks"@,
{
    let v = views(s.section_order@);
    assert(v.len() == s.section_order@.len());
    assert(v[0] == s.section_order@[0]@ && v[1] == s.section_order@[1]@);
    assert(v[2] == s.section_order@[2]@ && v[3] == s.section_order@[3]@);
}

/// A first start has the host at `localhost` with the usual thresholds, and a
/// clock, the weather, the overview and the news, in this order and with nothing
/// changed.
pub proof fn a_first_start_has_a_host_and_four_widgets(c: Config)
    requires
        is_fresh(c),
    ensures
        c.devices@.len() == 1,
        c.devices@[0].is_host && c.devices@[0].ip@ == "localhost"@,
        c.devices@[0].id@ == "host"@ && c.devices@[0].name@ == "MinDash Host"@,
        c.devices@[0].icon@ == "cpu"@,
        c.devices@[0].alerts.online && c.devices@[0].alerts.cpu == 90,
        c.devices@[0].alerts.ram == 90 && c.devices@[0].alerts.cpu_temp == 80,
        c.devices@[0].alerts.disk_usage == 90,
        c.devices@[0].ssh is None && c.devices@[0].wol is None && c.devices@[0].connect is None,
        c.devices@[0].docker is None && c.devices@[0].files_root is None,
        c.links@.len() == 0 && c.quick_actions@.len() == 0 && c.tasks@.len() == 0,
        !c.onboarding_done,
        c.widgets@.len() == 4,
        c.widgets@[0].kind is Clock && c.widgets@[0].id@ == "clock-default"@,
        c.widgets@[1].kind is Weather && c.widgets@[1].id@ == "weather-default"@,
        c.widgets@[2].kind is Overview && c.widgets@[2].id@ == "overview-default"@,
        c.widgets@[3].kind is Rss && c.widgets@[3].id@ == "news-default"@,
        forall|i: int|
            0 <= i < 4 ==> {
                &&& (#[trigger] c.widgets@[i]).title@ == type_of(c.widgets@[i].kind).title
                &&& c.widgets@[i].icon@ == type_of(c.widgets@[i].kind).icon
                &&& c.widgets@[i].settings@ == default_settings(fields_of(c.widgets@[i].kind))
            },
{
    assert forall|i: int| 0 <= i < 4 implies {
        &&& (#[trigger] c.widgets@[i]).title@ == type_of(c.widgets@[i].kind).title
        &&& c.widgets@[i].icon@ == type_of(c.widgets@[i].kind).icon
        &&& c.widgets@[i].settings@ == default_settings(fields_of(c.widgets@[i].kind))
    } by {
        assert(i == 0 || i == 1 || i == 2 || i == 3);
    }
}

/// Mending loses nothing that was stored: every machine is still there, in its
/// order and behind the host where that was added, and so are the bookmarks, the
/// scripts, the tasks, the widgets and the settings. A document with a host and
/// an order of sections is kept as it is.
pub proof fn mending_loses_nothing(before: Config, after: Config)
    requires
        is_mended(before, after),
    ensures
        has_host(after.devices@),
        after.devices@.len() >= before.devices@.len(),
        after.devices@.skip(after.devices@.len() - before.devices@.len()) == before.devices@,
        has_host(before.devices@) ==> after.devices@ == before.devices@,
        !has_host(before.devices@) ==> after.devices@.len() == before.devices@.len() + 1
            && after.devices@[0].is_host && after.devices@[0].ip@ == "localhost"@,
        after.settings.section_order@.len() > 0,
        before.settings.section_order@.len() > 0 ==> views(after.settings.section_order@) == views(
            before.settings.section_order@,
        ),
        after.settings.theme == before.settings.theme,
        after.settings.revision == before.settings.revision,
        after.settings.show_devices == before.settings.show_devices,
        after.settings.show_links == before.settings.show_links,
        after.settings.show_quick_actions == before.settings.show_quick_actions,
        after.settings.show_tasks == before.settings.show_tasks,
        after.links == before.links && after.quick_actions == before.quick_actions,
        after.tasks == before.tasks && after.widgets == before.widgets,
        after.onboarding_done == before.onboarding_done,
{
    let a = after.devices@;
    let b = before.devices@;
    assert(views(after.settings.section_order@).len() == after.settings.section_order@.len());
    assert(views(before.settings.section_order@).len() == before.settings.section_order@.len());
    if has_host(b) {
        assert(a.skip(0) =~= b);
    } else {
        assert(a[0].is_host);
        assert(a.skip(1) =~= a.drop_first());
    }
}

/// A machine is logged in to as the configured user, or as root, at the
/// configured port, or at 22.
pub proof fn a_login_falls_back_to_root(d: Device)
    ensures
        d.ssh is None ==> d.login() == "root"@ && d.port() == 22,
        d.ssh matches Some(s) ==> {
            &&& is_blank(s.user@) ==> d.login() == "root"@
            &&& !is_blank(s.user@) ==> d.login() == s.user@
            &&& s.port == 0 ==> d.port() == 22
            &&& s.port != 0 ==> d.port() == s.port
        },
{
}

/// The file browser starts at the configured directory, without white space
/// around it, or at the top.
pub proof fn browsing_falls_back_to_the_top(d: Device)
    ensures
        d.files_root is None ==> d.browse_root() == "/"@,
        d.files_root matches Some(s) ==> {
            &&& is_blank(s@) ==> d.browse_root() == "/"@
            &&& !is_blank(s@) ==> d.browse_root() == trimmed(s@)
        },
{
}

/// The machine that the dashboard runs on is the host, and any machine at no
/// address, at `localhost`, at `::1` or at one that starts with `127.`; no other
/// is.
pub proof fn the_local_machine(d: Device)
    ensures
        d.is_host ==> d.local(),
        is_blank(d.ip@) ==> d.local(),
        trimmed(d.ip@) == "localhost"@ || trimmed(d.ip@) == "::1"@ ==> d.local(),
        begins(trimmed(d.ip@), "127."@) ==> d.local(),
        !d.is_host && !is_blank(d.ip@) && trimmed(d.ip@) != "localhost"@ && trimmed(d.ip@)
            != "::1"@ && !begins(trimmed(d.ip@), "127."@) ==> !d.local(),
{
}

/// A container is called by its name, with or without further addresses.
pub proof fn a_container_is_called_by_its_name(n: String, web: String, rdp: String, vnc: String)
    ensures
        ContainerRef::Name(n).title() == n@,
        (ContainerRef::Full { name: n, web, rdp, vnc }).title() == n@,
{
}

/// Every schedule has its time of day.
pub proof fn every_schedule_has_its_time(time: String, day: u8, date: u8)
    ensures
        (Schedule::Hourly { time }).written() == time@,
        (Schedule::Daily { time }).written() == time@,
        (Schedule::Weekly { time, day }).written() == time@,
        (Schedule::Monthly { time, date }).written() == time@,
{
}

/// An hour below 24 and a minute below 60, with a colon between them, are that
/// time of day, however many zeros lead. Every other text counts as three in the
/// morning.
pub proof fn a_time_of_day_is_read(a: Seq<char>, b: Seq<char>, h: nat, m: nat)
    requires
        all_digits(a) && all_digits(b),
        parse_unsigned(a, u64::MAX as nat) == Some(h),
        parse_unsigned(b, u64::MAX as nat) == Some(m),
    ensures
        h < 24 && m < 60 ==> time_of_day(a + seq![':'] + b) == (h as int, m as int),
        h >= 24 || m >= 60 ==> time_of_day(a + seq![':'] + b) == (3int, 0int),
{
    lemma_digits_hold_no_mark(a);
    lemma_digits_hold_no_mark(b);
    lemma_split_head(a, ':', b);
    lemma_split_plain(b, ':');
    let p = split(a + seq![':'] + b, ':');
    assert(p.len() == 2 && p[0] == a && p[1] == b);
}

/// What is not two numbers with a colon between them is no time of day, and counts
/// as three in the morning; whatever the text, there is an hour and a minute.
pub proof fn what_is_no_time_is_three_in_the_morning(s: Seq<char>)
    ensures
        split(s, ':').len() != 2 ==> time_of_day(s) == (3int, 0int),
        split(s, ':').len() == 2 && (parse_unsigned(split(s, ':')[0], 23) is None
            || parse_unsigned(split(s, ':')[1], 59) is None) ==> time_of_day(s) == (3int, 0int),
        0 <= time_of_day(s).0 <= 23,
        0 <= time_of_day(s).1 <= 59,
{
}

/// A row of digits holds no colon.
proof fn lemma_digits_hold_no_mark(s: Seq<char>)
    requires
        all_digits(s),
    ensures
        !s.contains(':'),
{
    if s.contains(':') {
        let i = choose|i: int| 0 <= i < s.len() && s[i] == ':';
        assert(is_digit(s[i]));
    }
}

} // verus!
