//! The control plane: status, power, wake-on-LAN, containers and files.
//!
//! A machine is looked up by its id in the stored configuration, and where it is
//! reached comes from there. Nothing here takes a host, a user, a port or a
//! command from a request.

use vstd::prelude::*;
use vstd::utf8::*;

use crate::config::{ContainerRef, Device};
use crate::errors::{ExecError, FileError, NetError};
use crate::json::{
    json_views, keys_ascend, text_of, text_or, with_field, Fields, Json, JsonMap, JsonView,
    NumberView,
};
use crate::listing::{entry_views, EntryView, FileEntry};
use crate::net::{container_action, is_container_name, ContainerAction};
use crate::order::text_before;
use crate::paths::{
    above, confined, has_drive, normalise, normalised, the_directory_above_is_accepted,
    unified, Refusal,
};
use crate::reply::{
    done_reply, error_reply, json_error, ok_map, plain_reply, success, Reply, ReplyView,
};
use crate::shell::{power, says_dropped, PowerAction, SshTarget};
use crate::text::{
    begins, blank, concat2, cut_last, is_blank, lemma_position, lemma_position_is, listed, opt_view,
    position, rsplit_once, same, the_last_separator_cuts, views,
};

verus! {

/// For how many seconds the status of the machines is reused.
pub const STATUS_TTL: u64 = 15;

/// What the status of the machines is kept under.
pub const STATUS_KEY: &'static str = "device-status";

/// The largest file, in bytes, that is shown.
pub const MAX_PREVIEW_BYTES: u64 = 524_288;

/// How many of a file's first bytes are looked at to tell text from other data.
pub const BINARY_PROBE: usize = 4096;

/// What lists the containers of a remote machine.
pub const DOCKER_LIST: &'static str = "docker ps -a --format '{{.Names}}:{{.State}}'";

// ---------------------------------------------------------------------------
// Requests
// ---------------------------------------------------------------------------

/// A request to change the power state of a machine.
#[derive(Debug, Clone, Copy)]
pub struct PowerBody {
    pub action: PowerAction,
}

/// A request to do something with a container.
#[derive(Debug, Clone)]
pub struct ContainerBody {
    pub name: String,
    pub action: ContainerAction,
}

/// A request for a path.
#[derive(Debug, Clone)]
pub struct PathQuery {
    pub path: String,
}

// ---------------------------------------------------------------------------
// Machines
// ---------------------------------------------------------------------------

/// The ids of machines.
pub open spec fn device_ids(v: Seq<Device>) -> Seq<Seq<char>> {
    Seq::new(v.len(), |i: int| v[i].id@)
}

/// The machine of that id: the first, where there are several.
pub open spec fn device_named(v: Seq<Device>, id: Seq<char>) -> Option<Device> {
    match position(device_ids(v), id) {
        Some(i) => Some(v[i as int]),
        None => None,
    }
}

/// The machine of that id, or the reply that there is none.
pub fn device_by_id<'a>(devices: &'a Vec<Device>, id: &str) -> (r: Result<&'a Device, Reply>)
    ensures
        match (r, device_named(devices@, id@)) {
            (Ok(d), Some(v)) => *d == v && d.id@ == id@,
            (Err(reply), None) => reply@ == error_reply(404, "Unknown device"@),
            _ => false,
        },
{
    let ghost ids = device_ids(devices@);
    let mut i: usize = 0;
    while i < devices.len()
        invariant
            i <= devices@.len(),
            ids == device_ids(devices@),
            forall|j: int| 0 <= j < i ==> ids[j] != id@,
        decreases devices.len() - i,
    {
        assert(ids[i as int] == devices@[i as int].id@);
        if same(devices[i].id.as_str(), id) {
            proof {
                lemma_position_is(ids, id@, i as int);
            }
            return Ok(&devices[i]);
        }
        i = i + 1;
    }
    proof {
        lemma_position(ids, id@);
    }
    Err(json_error(404, "Unknown device"))
}

/// Is this how the machine is reached? Everything but the identity file comes
/// from what is stored of the machine.
pub open spec fn reaches(t: SshTarget, d: Device, key: Option<Seq<char>>) -> bool {
    &&& t.ip@ == d.ip@
    &&& t.user@ == d.login()
    &&& t.port == d.port()
    &&& opt_view(t.key) == match key {
        Some(k) => if is_blank(k) {
            None
        } else {
            Some(k)
        },
        None => None,
    }
}

/// How a machine is reached, with an identity file that is used for all of them
/// where one is given.
pub fn target_for(device: &Device, key: Option<String>) -> (r: SshTarget)
    ensures
        reaches(r, *device, opt_view(key)),
{
    let key = match key {
        Some(k) => if blank(k.as_str()) {
            None
        } else {
            Some(k)
        },
        None => None,
    };
    SshTarget { ip: device.ip.clone(), user: device.ssh_user(), port: device.ssh_port(), key }
}

// ---------------------------------------------------------------------------
// Status and statistics
// ---------------------------------------------------------------------------

/// Whether a machine is online, as JSON. The host always is.
pub open spec fn online_view(d: Device, reachable: bool) -> JsonView {
    let m = with_field(seq![], "id"@, JsonView::Str(d.id@));
    JsonView::Object(with_field(m, "online"@, JsonView::Bool(d.is_host || reachable)))
}

/// Whether a machine is online, given whether it could be reached.
fn online_row(d: &Device, reachable: bool) -> (r: Json)
    ensures
        r@ == online_view(*d, reachable),
{
    let mut m = JsonMap::new();
    m.insert("id", Json::text(d.id.as_str()));
    m.insert("online", Json::Bool(d.is_host || reachable));
    Json::object(m)
}

/// What is kept of the status of all machines, given which of them could be
/// reached.
pub fn devices_status(devices: &Vec<Device>, reachable: &Vec<bool>) -> (r: Json)
    requires
        reachable@.len() == devices@.len(),
    ensures
        r@ == JsonView::Object(
            with_field(
                seq![],
                "devices"@,
                JsonView::Array(
                    Seq::new(devices@.len(), |i: int| online_view(devices@[i], reachable@[i])),
                ),
            ),
        ),
{
    let mut rows: Vec<Json> = Vec::new();
    let n: usize = devices.len();
    let mut i: usize = 0;
    while i < n
        invariant
            i <= n,
            n == devices@.len(),
            n == reachable@.len(),
            rows@.len() == i,
            forall|j: int|
                0 <= j < i ==> (#[trigger] rows@[j])@ == online_view(devices@[j], reachable@[j]),
        decreases n - i,
    {
        rows.push(online_row(&devices[i], reachable[i]));
        i = i + 1;
    }
    assert(json_views(rows@) =~= Seq::new(
        devices@.len(),
        |i: int| online_view(devices@[i], reachable@[i]),
    ));
    let mut m = JsonMap::new();
    m.insert("devices", Json::array(rows));
    Json::object(m)
}

/// The reply with some data.
pub open spec fn data_view(data: JsonView) -> ReplyView {
    plain_reply(200, JsonView::Object(with_field(success(), "data"@, data)))
}

/// The reply with some data.
pub fn data_reply(data: Json) -> (r: Reply)
    ensures
        r@ == data_view(data@),
{
    let mut m = ok_map();
    m.insert("data", data);
    Reply::json(200, Json::object(m))
}

/// What is reported of a machine at a local address whose local statistics could
/// not be read: those read from afar, where that worked, else the local error.
pub fn stats_fallback(local: ExecError, remote: Result<Json, ExecError>) -> (r: Result<
    Json,
    ExecError,
>)
    ensures
        r == match remote {
            Ok(stats) => Ok::<Json, ExecError>(stats),
            Err(_) => Err::<Json, ExecError>(local),
        },
{
    match remote {
        Ok(stats) => Ok(stats),
        Err(_) => Err(local),
    }
}

/// The reply with the statistics of a machine.
pub fn device_stats(result: Result<Json, ExecError>) -> (r: Reply)
    requires
        result matches Err(e) ==> e.wf(),
    ensures
        r@ == match result {
            Ok(stats) => data_view(stats@),
            Err(e) => error_reply(502, e.reads()),
        },
{
    match result {
        Ok(stats) => data_reply(stats),
        Err(e) => {
            let why = e.message();
            json_error(502, why.as_str())
        },
    }
}

// ---------------------------------------------------------------------------
// Power
// ---------------------------------------------------------------------------

/// How to change the power state of a machine: where to connect to and what to
/// run there, or the reply that refuses it. The machine that the dashboard runs
/// on is never touched.
pub fn device_power(devices: &Vec<Device>, id: &str, body: &PowerBody, key: Option<String>) -> (r:
    Result<(SshTarget, &'static str), Reply>)
    ensures
        match (r, device_named(devices@, id@)) {
            (Ok((t, line)), Some(d)) => !d.is_host && reaches(t, d, opt_view(key)) && line@
                == body.action.line(),
            (Err(reply), None) => reply@ == error_reply(404, "Unknown device"@),
            (Err(reply), Some(d)) => d.is_host && reply@ == error_reply(
                400,
                "Refusing to change power state of the MinDash host"@,
            ),
            _ => false,
        },
{
    let device = match device_by_id(devices, id) {
        Ok(d) => d,
        Err(reply) => {
            return Err(reply);
        },
    };
    if device.is_host {
        return Err(json_error(400, "Refusing to change power state of the MinDash host"));
    }
    Ok((target_for(device, key), body.action.command()))
}

/// The reply to a power command, and whether the status of the machines is to be
/// looked at anew.
pub fn power_reply(outcome: Result<String, ExecError>) -> (r: (Reply, bool))
    requires
        outcome matches Err(e) ==> e.wf(),
    ensures
        r.1 == match outcome {
            Ok(_) => true,
            Err(ExecError::Failed(m)) => says_dropped(m@),
            Err(_) => false,
        },
        r.1 ==> r.0@ == done_reply(),
        !r.1 ==> r.0@ == error_reply(502, outcome->Err_0.reads()),
{
    match power(outcome) {
        Ok(()) => (Reply::done(), true),
        Err(e) => {
            let why = e.message();
            (json_error(502, why.as_str()), false)
        },
    }
}

// ---------------------------------------------------------------------------
// Wake-on-LAN
// ---------------------------------------------------------------------------

/// The broadcast address of a machine: the configured one, or the one of its
/// subnet, or the one that reaches every machine on the wire.
pub open spec fn broadcast_of(d: Device, configured: Seq<char>) -> Seq<char> {
    if is_blank(configured) {
        match cut_last(d.ip@, '.') {
            Some((prefix, _)) => prefix + ".255"@,
            None => "255.255.255.255"@,
        }
    } else {
        configured
    }
}

/// The MAC address and the broadcast address to wake a machine with, or the reply
/// that refuses it.
pub fn device_wake(devices: &Vec<Device>, id: &str) -> (r: Result<(String, String), Reply>)
    ensures
        match (r, device_named(devices@, id@)) {
            (Ok((mac, broadcast)), Some(d)) => d.wol matches Some(w) && mac@ == w.mac@
                && broadcast@ == broadcast_of(d, w.broadcast@),
            (Err(reply), None) => reply@ == error_reply(404, "Unknown device"@),
            (Err(reply), Some(d)) => d.wol is None && reply@ == error_reply(
                400,
                "No wake-on-LAN MAC configured"@,
            ),
            _ => false,
        },
{
    let device = match device_by_id(devices, id) {
        Ok(d) => d,
        Err(reply) => {
            return Err(reply);
        },
    };
    match &device.wol {
        None => Err(json_error(400, "No wake-on-LAN MAC configured")),
        Some(w) => {
            let broadcast = if blank(w.broadcast.as_str()) {
                match rsplit_once(device.ip.as_str(), '.') {
                    Some((prefix, _)) => concat2(prefix.as_str(), ".255"),
                    None => String::from_str("255.255.255.255"),
                }
            } else {
                w.broadcast.clone()
            };
            Ok((w.mac.clone(), broadcast))
        },
    }
}

/// The reply to a wake request.
pub fn wake_reply(result: Result<(), NetError>, broadcast: &str) -> (r: Reply)
    ensures
        r@ == match result {
            Ok(()) => plain_reply(
                200,
                JsonView::Object(
                    with_field(success(), "broadcast"@, JsonView::Str(broadcast@)),
                ),
            ),
            Err(e) => error_reply(400, e.reads()),
        },
{
    match result {
        Ok(()) => {
            let mut m = ok_map();
            m.insert("broadcast", Json::text(broadcast));
            Reply::json(200, Json::object(m))
        },
        Err(e) => {
            let why = e.message();
            json_error(400, why.as_str())
        },
    }
}

// ---------------------------------------------------------------------------
// Containers
// ---------------------------------------------------------------------------

/// The names of containers.
pub open spec fn container_names(v: Seq<ContainerRef>) -> Seq<Seq<char>> {
    Seq::new(v.len(), |i: int| v[i].title())
}

/// The containers that are configured for a machine.
pub open spec fn wanted_on(d: Device) -> Seq<Seq<char>> {
    match d.docker {
        Some(c) => container_names(c.containers@),
        None => seq![],
    }
}

/// The containers that are configured for a machine.
pub fn wanted(d: &Device) -> (r: Vec<String>)
    ensures
        views(r@) == wanted_on(*d),
{
    let mut out: Vec<String> = Vec::new();
    match &d.docker {
        Some(c) => {
            let ghost names = container_names(c.containers@);
            let mut i: usize = 0;
            while i < c.containers.len()
                invariant
                    i <= c.containers@.len(),
                    names == container_names(c.containers@),
                    views(out@) == names.take(i as int),
                decreases c.containers.len() - i,
            {
                let ghost before = views(out@);
                out.push(String::from_str(c.containers[i].name()));
                i = i + 1;
                assert(views(out@) =~= before.push(names[i - 1]));
                assert(names.take(i as int) =~= before.push(names[i - 1]));
            }
            assert(names.take(i as int) =~= names);
        },
        None => {
            assert(views(out@) =~= Seq::<Seq<char>>::empty());
        },
    }
    out
}

/// Are the containers of the machine listed? Those of the host are, and those of
/// a machine that has some configured.
pub fn is_listed(d: &Device) -> (r: bool)
    ensures
        r == (d.is_host || wanted_on(*d).len() > 0),
{
    let names = wanted(d);
    assert(views(names@).len() == names@.len());
    d.is_host || names.len() > 0
}

/// A container as JSON.
pub open spec fn container_view(device: Seq<char>, name: Seq<char>, status: Seq<char>) -> JsonView {
    let m = with_field(seq![], "device"@, JsonView::Str(device));
    let m = with_field(m, "name"@, JsonView::Str(name));
    let m = with_field(m, "status"@, JsonView::Str(status));
    JsonView::Object(with_field(m, "running"@, JsonView::Bool(status == "running"@)))
}

/// The containers of a machine, as far as they are wanted; where none is named,
/// all are.
pub open spec fn container_rows(
    device: Seq<char>,
    names: Seq<Seq<char>>,
    states: Fields,
) -> Seq<JsonView>
    decreases states.len(),
{
    if states.len() == 0 {
        seq![]
    } else {
        let before = container_rows(device, names, states.drop_last());
        let (name, status) = states.last();
        if names.len() == 0 || names.contains(name) {
            before.push(container_view(device, name, text_or(Some(status), ""@)))
        } else {
            before
        }
    }
}

/// Adds the containers of a machine to a list, in the order of their names.
fn add_containers(d: &Device, states: &JsonMap, out: &mut Vec<Json>)
    ensures
        json_views(final(out)@) == json_views(old(out)@) + container_rows(
            d.id@,
            wanted_on(*d),
            states@,
        ),
{
    let names = wanted(d);
    let ghost nv = wanted_on(*d);
    assert(nv.len() == names@.len());
    let ghost start = json_views(out@);
    let ghost sv = states@;
    let n: usize = states.len();
    let mut i: usize = 0;
    assert(sv.take(0) =~= Seq::<(Seq<char>, JsonView)>::empty());
    assert(start + container_rows(d.id@, nv, sv.take(0)) =~= start);
    while i < n
        invariant
            i <= n,
            n == states.entries@.len(),
            sv == states@,
            nv == views(names@),
            nv.len() == names@.len(),
            json_views(out@) == start + container_rows(d.id@, nv, sv.take(i as int)),
        decreases n - i,
    {
        let ghost before = json_views(out@);
        assert(sv.take(i + 1).drop_last() =~= sv.take(i as int));
        assert(sv.take(i + 1).last() == sv[i as int]);
        let name = states.entries[i].0.as_str();
        if names.len() == 0 || listed(&names, name) {
            let status = text_of(Some(&states.entries[i].1), "");
            let mut m = JsonMap::new();
            m.insert("device", Json::text(d.id.as_str()));
            m.insert("name", Json::text(name));
            m.insert("status", Json::text(status));
            m.insert("running", Json::Bool(same(status, "running")));
            let j = Json::object(m);
            out.push(j);
            assert(json_views(out@) =~= before.push(j@));
            assert(start + container_rows(d.id@, nv, sv.take(i as int)).push(j@) =~= before.push(
                j@,
            ));
        }
        i = i + 1;
    }
    assert(sv.take(i as int) =~= sv);
}

/// The states that are known of a machine's containers.
pub open spec fn states_or_none(states: Option<JsonMap>) -> Fields {
    match states {
        Some(m) => m@,
        None => seq![],
    }
}

/// The containers of all machines: of each machine that is listed, in turn, as
/// far as their states are known.
pub open spec fn all_rows(devices: Seq<Device>, states: Seq<Option<JsonMap>>) -> Seq<JsonView>
    decreases devices.len(),
{
    if devices.len() == 0 {
        seq![]
    } else {
        let before = all_rows(devices.drop_last(), states);
        let d = devices.last();
        if d.is_host || wanted_on(d).len() > 0 {
            before + container_rows(
                d.id@,
                wanted_on(d),
                states_or_none(states[devices.len() - 1]),
            )
        } else {
            before
        }
    }
}

/// The reply with the containers of all machines, given their states by machine
/// where they could be read.
pub fn containers_list(devices: &Vec<Device>, states: &Vec<Option<JsonMap>>) -> (r: Reply)
    requires
        states@.len() == devices@.len(),
    ensures
        r@ == plain_reply(
            200,
            JsonView::Object(
                with_field(
                    success(),
                    "containers"@,
                    JsonView::Array(all_rows(devices@, states@)),
                ),
            ),
        ),
{
    let mut rows: Vec<Json> = Vec::new();
    let n: usize = devices.len();
    let mut i: usize = 0;
    assert(json_views(rows@) =~= all_rows(devices@.take(0), states@));
    while i < n
        invariant
            i <= n,
            n == devices@.len(),
            n == states@.len(),
            json_views(rows@) == all_rows(devices@.take(i as int), states@),
        decreases n - i,
    {
        let ghost before = json_views(rows@);
        assert(devices@.take(i + 1).drop_last() =~= devices@.take(i as int));
        assert(devices@.take(i + 1).last() == devices@[i as int]);
        if is_listed(&devices[i]) {
            let none = JsonMap::new();
            match &states[i] {
                Some(m) => add_containers(&devices[i], m, &mut rows),
                None => add_containers(&devices[i], &none, &mut rows),
            }
        }
        i = i + 1;
    }
    assert(devices@.take(i as int) =~= devices@);
    let mut m = ok_map();
    m.insert("containers", Json::array(rows));
    Reply::json(200, Json::object(m))
}

/// A row comes from a container that is wanted.
proof fn lemma_row_from(device: Seq<char>, names: Seq<Seq<char>>, states: Fields, i: int) -> (x: int)
    requires
        0 <= i < container_rows(device, names, states).len(),
    ensures
        0 <= x < states.len(),
        names.len() == 0 || names.contains(states[x].0),
        container_rows(device, names, states)[i] == container_view(
            device,
            states[x].0,
            text_or(Some(states[x].1), ""@),
        ),
    decreases states.len(),
{
    let front = states.drop_last();
    let before = container_rows(device, names, front);
    if i < before.len() {
        let x = lemma_row_from(device, names, front, i);
        assert(states[x] == front[x]);
        x
    } else {
        states.len() - 1
    }
}

/// The containers of a machine are shown in the order of their names, each once,
/// and none but those that are wanted.
pub proof fn containers_are_in_order(
    device: Seq<char>,
    names: Seq<Seq<char>>,
    states: Fields,
    i: int,
    j: int,
)
    requires
        keys_ascend(states),
        0 <= i < j < container_rows(device, names, states).len(),
    ensures
        exists|a: Seq<char>, b: Seq<char>, s: Seq<char>, t: Seq<char>|
            {
                &&& container_rows(device, names, states)[i] == #[trigger] container_view(
                    device,
                    a,
                    s,
                )
                &&& container_rows(device, names, states)[j] == #[trigger] container_view(
                    device,
                    b,
                    t,
                )
                &&& text_before(a, b)
                &&& names.len() == 0 || names.contains(a) && names.contains(b)
            },
    decreases states.len(),
{
    let rows = container_rows(device, names, states);
    let front = states.drop_last();
    let before = container_rows(device, names, front);
    assert(keys_ascend(front)) by {
        assert forall|x: int, y: int| 0 <= x < y < front.len() implies text_before(
            #[trigger] front[x].0,
            #[trigger] front[y].0,
        ) by {
            assert(text_before(states[x].0, states[y].0));
        }
    }
    if j < before.len() {
        containers_are_in_order(device, names, front, i, j);
        assert(rows[i] == before[i] && rows[j] == before[j]);
    } else {
        let x = lemma_row_from(device, names, front, i);
        let y = states.len() - 1;
        assert(states[x] == front[x]);
        assert(text_before(states[x].0, states[y].0));
        assert(rows[i] == container_view(
            device,
            states[x].0,
            text_or(Some(states[x].1), ""@),
        ));
        assert(rows[j] == container_view(
            device,
            states[y].0,
            text_or(Some(states[y].1), ""@),
        ));
    }
}

/// Every container that is there and wanted is shown.
pub proof fn no_wanted_container_is_left_out(
    device: Seq<char>,
    names: Seq<Seq<char>>,
    states: Fields,
    x: int,
)
    requires
        0 <= x < states.len(),
        names.len() == 0 || names.contains(states[x].0),
    ensures
        container_rows(device, names, states).contains(
            container_view(device, states[x].0, text_or(Some(states[x].1), ""@)),
        ),
    decreases states.len(),
{
    let rows = container_rows(device, names, states);
    let front = states.drop_last();
    let before = container_rows(device, names, front);
    let row = container_view(device, states[x].0, text_or(Some(states[x].1), ""@));
    if x == states.len() - 1 {
        assert(rows[before.len() as int] == row);
    } else {
        no_wanted_container_is_left_out(device, names, front, x);
        let k = choose|k: int| 0 <= k < before.len() && before[k] == row;
        assert(rows[k] == row);
    }
}

/// Is a container of that name configured for some machine?
pub open spec fn is_known(devices: Seq<Device>, name: Seq<char>) -> bool {
    exists|i: int| 0 <= i < devices.len() && wanted_on(#[trigger] devices[i]).contains(name)
}

/// Is a container of that name configured for some machine?
fn known(devices: &Vec<Device>, name: &str) -> (r: bool)
    ensures
        r == is_known(devices@, name@),
{
    let mut i: usize = 0;
    while i < devices.len()
        invariant
            i <= devices@.len(),
            forall|j: int| 0 <= j < i ==> !wanted_on(#[trigger] devices@[j]).contains(name@),
        decreases devices.len() - i,
    {
        let names = wanted(&devices[i]);
        if listed(&names, name) {
            assert(wanted_on(devices@[i as int]).contains(name@));
            return true;
        }
        i = i + 1;
    }
    false
}

/// The arguments with which `docker` does what is asked, or the reply that
/// refuses it: only configured containers are touched, and only by a proper name.
pub fn container_control(devices: &Vec<Device>, body: &ContainerBody) -> (r: Result<
    Vec<String>,
    Reply,
>)
    ensures
        match r {
            Ok(args) => {
                &&& is_known(devices@, body.name@)
                &&& is_container_name(body.name@)
                &&& views(args@) == seq![body.action.label(), body.name@]
            },
            Err(reply) => {
                ||| !is_known(devices@, body.name@) && reply@ == error_reply(
                    403,
                    "That container is not in the configured list"@,
                )
                ||| is_known(devices@, body.name@) && !is_container_name(body.name@) && reply@
                    == error_reply(502, "invalid container name: "@ + body.name@)
            },
        },
{
    if !known(devices, body.name.as_str()) {
        return Err(json_error(403, "That container is not in the configured list"));
    }
    match container_action(body.name.as_str(), body.action) {
        Ok(args) => Ok(args),
        Err(e) => {
            let why = e.message();
            Err(json_error(502, why.as_str()))
        },
    }
}

/// The reply to something done with a container.
pub fn container_reply(result: Result<String, NetError>) -> (r: Reply)
    ensures
        r@ == match result {
            Ok(_) => done_reply(),
            Err(e) => error_reply(502, e.reads()),
        },
{
    match result {
        Ok(_) => Reply::done(),
        Err(e) => {
            let why = e.message();
            json_error(502, why.as_str())
        },
    }
}

/// The names of members as JSON.
pub open spec fn names_view(m: Fields) -> Seq<JsonView> {
    Seq::new(m.len(), |i: int| JsonView::Str(m[i].0))
}

/// The reply with the containers that there are to choose from, in the order of
/// their names. Where they cannot be listed there are none, and a note says why.
pub fn containers_available(states: Result<JsonMap, NetError>) -> (r: Reply)
    ensures
        r@ == plain_reply(
            200,
            JsonView::Object(
                match states {
                    Ok(m) => with_field(success(), "names"@, JsonView::Array(names_view(m@))),
                    Err(e) => with_field(
                        with_field(success(), "names"@, JsonView::Array(seq![])),
                        "note"@,
                        JsonView::Str(e.reads()),
                    ),
                },
            ),
        ),
{
    let mut m = ok_map();
    match states {
        Ok(s) => {
            let mut names: Vec<Json> = Vec::new();
            let n: usize = s.len();
            let mut i: usize = 0;
            while i < n
                invariant
                    i <= n,
                    n == s.entries@.len(),
                    names@.len() == i,
                    forall|j: int| 0 <= j < i ==> (#[trigger] names@[j])@ == JsonView::Str(s@[j].0),
                decreases n - i,
            {
                names.push(Json::text(s.entries[i].0.as_str()));
                i = i + 1;
            }
            assert(json_views(names@) =~= names_view(s@));
            m.insert("names", Json::array(names));
        },
        Err(e) => {
            let none: Vec<Json> = Vec::new();
            assert(json_views(none@) =~= Seq::<JsonView>::empty());
            m.insert("names", Json::array(none));
            let why = e.message();
            m.insert("note", Json::text(why.as_str()));
        },
    }
    Reply::json(200, Json::object(m))
}

// ---------------------------------------------------------------------------
// Files
// ---------------------------------------------------------------------------

/// Is this the root of the browser, however the root is written? Above it there
/// is nowhere to go.
pub open spec fn is_at_root(place: Seq<char>, root: Seq<char>) -> bool {
    place == normalised(root) || place == "/"@
}

/// The directory above a place, unless the place is the root of the browser.
pub open spec fn parent_of(place: Seq<char>, root: Seq<char>) -> Option<Seq<char>> {
    if is_at_root(place, root) {
        None
    } else {
        above(place)
    }
}

/// The directory that is offered as the parent of a place can be asked for: the
/// browser is never led out of its root. The root is one that starts at the top
/// of a filesystem or a drive.
pub proof fn the_parent_is_accepted(requested: Seq<char>, root: Seq<char>, place: Seq<char>)
    requires
        confined(requested, root) == Ok::<Seq<char>, Refusal>(place),
        begins(unified(root), seq!['/']) || has_drive(unified(root)),
    ensures
        match parent_of(place, root) {
            Some(up) => confined(up, root) is Ok,
            None => true,
        },
{
    if !is_at_root(place, root) && above(place) is Some {
        the_directory_above_is_accepted(requested, root, place, above(place)->0);
    }
}

/// An entry as JSON.
pub open spec fn entry_view(e: EntryView) -> JsonView {
    let m = with_field(seq![], "name"@, JsonView::Str(e.name));
    let m = with_field(m, "path"@, JsonView::Str(e.path));
    let m = with_field(m, "is_dir"@, JsonView::Bool(e.is_dir));
    let m = with_field(m, "size"@, JsonView::Number(NumberView::PosInt(e.size)));
    let m = with_field(m, "modified"@, JsonView::Str(e.modified));
    JsonView::Object(with_field(m, "mode"@, JsonView::Str(e.mode)))
}

/// An entry as JSON.
pub fn entry_json(e: &FileEntry) -> (r: Json)
    ensures
        r@ == entry_view(e@),
{
    let mut m = JsonMap::new();
    m.insert("name", Json::text(e.name.as_str()));
    m.insert("path", Json::text(e.path.as_str()));
    m.insert("is_dir", Json::Bool(e.is_dir));
    m.insert("size", Json::count(e.size));
    m.insert("modified", Json::text(e.modified.as_str()));
    m.insert("mode", Json::text(e.mode.as_str()));
    Json::object(m)
}

/// The reply with a listing.
pub open spec fn listing_view(
    root: Seq<char>,
    place: Seq<char>,
    entries: Seq<EntryView>,
) -> ReplyView {
    let m = with_field(success(), "root"@, JsonView::Str(root));
    let m = with_field(m, "path"@, JsonView::Str(place));
    let m = with_field(m, "at_root"@, JsonView::Bool(is_at_root(place, root)));
    let m = with_field(
        m,
        "parent"@,
        match parent_of(place, root) {
            Some(p) => JsonView::Str(p),
            None => JsonView::Null,
        },
    );
    plain_reply(
        200,
        JsonView::Object(
            with_field(
                m,
                "entries"@,
                JsonView::Array(entries.map_values(|e: EntryView| entry_view(e))),
            ),
        ),
    )
}

/// The reply to a failed request for a file or a directory.
pub open spec fn file_error_view(e: FileError) -> ReplyView {
    match e {
        FileError::Escape => error_reply(403, "That path is outside the configured root"@),
        e => error_reply(502, e.reads()),
    }
}

/// The reply to a failed request for a file or a directory.
fn file_error(e: &FileError) -> (r: Reply)
    requires
        e.wf(),
    ensures
        r@ == file_error_view(*e),
{
    match e {
        FileError::Escape => json_error(403, "That path is outside the configured root"),
        _ => {
            let why = e.message();
            json_error(502, why.as_str())
        },
    }
}

/// The reply to a request for a directory below a root.
pub fn files_list(root: &str, result: Result<(String, Vec<FileEntry>), FileError>) -> (r: Reply)
    requires
        result matches Err(e) ==> e.wf(),
    ensures
        r@ == match result {
            Ok((place, entries)) => listing_view(root@, place@, entry_views(entries@)),
            Err(e) => file_error_view(e),
        },
{
    let (place, entries) = match result {
        Ok(pair) => pair,
        Err(e) => {
            return file_error(&e);
        },
    };
    let top = normalise(root);
    let at_root = same(place.as_str(), top.as_str()) || same(place.as_str(), "/");
    let parent: Option<String> = if at_root {
        None
    } else {
        match rsplit_once(place.as_str(), '/') {
            Some((p, _)) => if p.as_str().is_empty() {
                Some(String::from_str("/"))
            } else {
                Some(p)
            },
            None => None,
        }
    };
    proof {
        reveal_strlit("/");
        assert("/"@ =~= seq!['/']);
    }
    assert(opt_view(parent) == parent_of(place@, root@));
    let ghost ev = entry_views(entries@);
    let mut rows: Vec<Json> = Vec::new();
    let mut i: usize = 0;
    while i < entries.len()
        invariant
            i <= entries@.len(),
            rows@.len() == i,
            forall|j: int| 0 <= j < i ==> (#[trigger] rows@[j])@ == entry_view(entries@[j]@),
        decreases entries.len() - i,
    {
        rows.push(entry_json(&entries[i]));
        i = i + 1;
    }
    assert(json_views(rows@) =~= ev.map_values(|e: EntryView| entry_view(e)));
    let mut m = ok_map();
    m.insert("root", Json::text(root));
    m.insert("path", Json::text(place.as_str()));
    m.insert("at_root", Json::Bool(at_root));
    m.insert(
        "parent",
        match &parent {
            Some(p) => Json::text(p.as_str()),
            None => Json::Null,
        },
    );
    m.insert("entries", Json::array(rows));
    Reply::json(200, Json::object(m))
}

/// Does the data hold a zero byte among the first ones that are looked at?
pub open spec fn is_binary(bytes: Seq<u8>) -> bool {
    exists|i: int| 0 <= i < bytes.len() && i < BINARY_PROBE && #[trigger] bytes[i] == 0
}

/// Is the content something other than text?
fn binary(content: &str) -> (r: bool)
    ensures
        r == is_binary(encode_utf8(content@)),
{
    let bytes = content.as_bytes();
    let mut i: usize = 0;
    while i < bytes.len() && i < BINARY_PROBE
        invariant
            i <= bytes@.len(),
            i <= BINARY_PROBE,
            bytes@ == encode_utf8(content@),
            forall|j: int| 0 <= j < i ==> bytes@[j] != 0,
        decreases bytes.len() - i,
    {
        if bytes[i] == 0 {
            assert(encode_utf8(content@)[i as int] == 0);
            return true;
        }
        i = i + 1;
    }
    false
}

/// The reply to a request for a file below a root.
pub fn files_read(result: Result<String, FileError>) -> (r: Reply)
    requires
        result matches Err(e) ==> e.wf(),
    ensures
        r@ == match result {
            Ok(content) => if is_binary(encode_utf8(content@)) {
                error_reply(415, "Binary file"@)
            } else {
                plain_reply(
                    200,
                    JsonView::Object(
                        with_field(success(), "content"@, JsonView::Str(content@)),
                    ),
                )
            },
            Err(e) => file_error_view(e),
        },
{
    match result {
        Ok(content) => if binary(content.as_str()) {
            json_error(415, "Binary file")
        } else {
            let mut m = ok_map();
            m.insert("content", Json::text(content.as_str()));
            Reply::json(200, Json::object(m))
        },
        Err(e) => file_error(&e),
    }
}

// ---------------------------------------------------------------------------
// Laws of the replies
// ---------------------------------------------------------------------------

/// What a listing says of an entry is the entry's own: whether it is a directory,
/// its name and path, its size, its time and its mode.
pub proof fn an_entry_is_reported_as_it_is(e: EntryView)
    ensures
        entry_view(e).get("name"@) == Some(JsonView::Str(e.name)),
        entry_view(e).get("path"@) == Some(JsonView::Str(e.path)),
        entry_view(e).get("is_dir"@) == Some(JsonView::Bool(e.is_dir)),
        entry_view(e).get("size"@) == Some(JsonView::Number(NumberView::PosInt(e.size))),
        entry_view(e).get("modified"@) == Some(JsonView::Str(e.modified)),
        entry_view(e).get("mode"@) == Some(JsonView::Str(e.mode)),
{
    broadcast use crate::json::reading_behind_setting;

    reveal_strlit("name");
    reveal_strlit("path");
    reveal_strlit("is_dir");
    reveal_strlit("size");
    reveal_strlit("modified");
    reveal_strlit("mode");
    assert("name"@[0] == 'n');
    assert("path"@[0] == 'p');
    assert("size"@[0] == 's');
    assert("mode"@[0] == 'm');
}

/// A listing says where it is and below which root, whether that is the root,
/// what lies above it, and then reports every entry, in the order of the entries.
pub proof fn a_listing_reports_every_entry(
    root: Seq<char>,
    place: Seq<char>,
    entries: Seq<EntryView>,
)
    ensures
        listing_view(root, place, entries).status == 200,
        listing_view(root, place, entries).body matches Some(v) && {
            &&& v.get("success"@) == Some(JsonView::Bool(true))
            &&& v.get("root"@) == Some(JsonView::Str(root))
            &&& v.get("path"@) == Some(JsonView::Str(place))
            &&& v.get("at_root"@) == Some(
                JsonView::Bool(place == normalised(root) || place == "/"@),
            )
            &&& parent_of(place, root) is None ==> v.get("parent"@) == Some(JsonView::Null)
            &&& parent_of(place, root) matches Some(up) ==> v.get("parent"@) == Some(
                JsonView::Str(up),
            )
            &&& v.get("entries"@) matches Some(JsonView::Array(rows)) && rows.len() == entries.len()
                && forall|i: int|
                0 <= i < entries.len() ==> {
                    &&& (#[trigger] rows[i]).get("name"@) == Some(JsonView::Str(entries[i].name))
                    &&& rows[i].get("path"@) == Some(JsonView::Str(entries[i].path))
                    &&& rows[i].get("is_dir"@) == Some(JsonView::Bool(entries[i].is_dir))
                    &&& rows[i].get("size"@) == Some(
                        JsonView::Number(NumberView::PosInt(entries[i].size)),
                    )
                    &&& rows[i].get("modified"@) == Some(JsonView::Str(entries[i].modified))
                    &&& rows[i].get("mode"@) == Some(JsonView::Str(entries[i].mode))
                }
        },
{
    broadcast use crate::json::reading_behind_setting;

    reveal_strlit("success");
    reveal_strlit("root");
    reveal_strlit("path");
    reveal_strlit("at_root");
    reveal_strlit("/");
    reveal_strlit("parent");
    reveal_strlit("entries");
    reveal_strlit("name");
    reveal_strlit("is_dir");
    reveal_strlit("size");
    reveal_strlit("modified");
    reveal_strlit("mode");
    assert("success"@[0] == 's');
    assert("at_root"@[0] == 'a');
    assert("entries"@[0] == 'e');
    assert("root"@[0] == 'r');
    assert("path"@[0] == 'p');
    assert("name"@[0] == 'n');
    assert("size"@[0] == 's');
    assert("mode"@[0] == 'm');
    assert("parent"@[0] == 'p');
    assert("is_dir"@[0] == 'i');
    let v = listing_view(root, place, entries).body->0;
    let rows = entries.map_values(|e: EntryView| entry_view(e));
    assert(v.get("entries"@) == Some(JsonView::Array(rows)));
    assert forall|i: int| 0 <= i < entries.len() implies {
        &&& (#[trigger] rows[i]).get("name"@) == Some(JsonView::Str(entries[i].name))
        &&& rows[i].get("path"@) == Some(JsonView::Str(entries[i].path))
        &&& rows[i].get("is_dir"@) == Some(JsonView::Bool(entries[i].is_dir))
        &&& rows[i].get("size"@) == Some(JsonView::Number(NumberView::PosInt(entries[i].size)))
        &&& rows[i].get("modified"@) == Some(JsonView::Str(entries[i].modified))
        &&& rows[i].get("mode"@) == Some(JsonView::Str(entries[i].mode))
    } by {
        an_entry_is_reported_as_it_is(entries[i]);
    }
}

/// The place that lies above another is the other without its last name, and at
/// the top it is the root of the filesystem. The root of the browser has none.
pub proof fn the_parent_is_one_name_shorter(dir: Seq<char>, name: Seq<char>, root: Seq<char>)
    requires
        !name.contains('/'),
    ensures
        ({
            let place = dir + seq!['/'] + name;
            &&& place == normalised(root) || place == "/"@ ==> parent_of(place, root) is None
            &&& place != normalised(root) && place != "/"@ && dir.len() > 0 ==> parent_of(place, root)
                == Some(dir)
            &&& place != normalised(root) && place != "/"@ && dir.len() == 0 ==> parent_of(
                place,
                root,
            ) == Some("/"@)
        }),
{
    reveal_strlit("/");
    assert("/"@ =~= seq!['/']);
    the_last_separator_cuts(dir, '/', name);
}

/// A machine is reported by its id; the host is always online, and any other
/// machine is where it could be reached.
pub proof fn a_machine_is_online_where_it_is_reached(d: Device, reachable: bool)
    ensures
        online_view(d, reachable).get("id"@) == Some(JsonView::Str(d.id@)),
        d.is_host ==> online_view(d, reachable).get("online"@) == Some(JsonView::Bool(true)),
        !d.is_host ==> online_view(d, reachable).get("online"@) == Some(JsonView::Bool(reachable)),
{
    broadcast use crate::json::reading_behind_setting;

    reveal_strlit("id");
    reveal_strlit("online");
    assert("id"@.len() == 2 && "online"@.len() == 6);
}

/// Data is handed out under `data`, beside the word that all went well.
pub proof fn data_is_handed_out(data: JsonView)
    ensures
        data_view(data).status == 200,
        data_view(data).body matches Some(v) && v.get("data"@) == Some(data) && v.get("success"@)
            == Some(JsonView::Bool(true)),
{
    broadcast use crate::json::reading_behind_setting;

    reveal_strlit("data");
    reveal_strlit("success");
    assert("data"@.len() == 4 && "success"@.len() == 7);
}

/// The machine of an id is the first that bears it.
pub proof fn a_machine_is_found_by_its_id(devices: Seq<Device>, id: Seq<char>, i: int)
    requires
        0 <= i <= devices.len(),
        forall|j: int| 0 <= j < i ==> (#[trigger] devices[j]).id@ != id,
        i < devices.len() ==> devices[i].id@ == id,
    ensures
        device_named(devices, id) == if i < devices.len() {
            Some(devices[i])
        } else {
            None
        },
{
    let ids = device_ids(devices);
    lemma_position(ids, id);
    assert forall|j: int| 0 <= j < i implies ids[j] != id by {
        assert(ids[j] == devices[j].id@);
    }
    if i < devices.len() {
        lemma_position_is(ids, id, i);
    }
}

/// A machine is reached at its own address, under its own login and port. A
/// blank identity file is none.
pub proof fn a_machine_is_reached_as_configured(t: SshTarget, d: Device, key: Option<Seq<char>>)
    requires
        reaches(t, d, key),
    ensures
        t.ip@ == d.ip@,
        t.user@ == d.login(),
        t.port == d.port(),
        key is None ==> t.key is None,
        key matches Some(k) ==> (is_blank(k) ==> t.key is None) && (!is_blank(k) ==> (
        t.key matches Some(f) && f@ == k)),
{
}

/// A configured broadcast address is used as it is. Without one, it is the
/// machine's own address with 255 in place of its last part, and where the
/// address has no parts, the one that reaches every machine.
pub proof fn a_machine_is_woken_in_its_subnet(
    d: Device,
    configured: Seq<char>,
    subnet: Seq<char>,
    last: Seq<char>,
)
    requires
        !last.contains('.'),
    ensures
        !is_blank(configured) ==> broadcast_of(d, configured) == configured,
        is_blank(configured) && d.ip@ == subnet + seq!['.'] + last ==> broadcast_of(d, configured)
            == subnet + seq!['.', '2', '5', '5'],
        is_blank(configured) && d.ip@ == last ==> broadcast_of(d, configured)
            == "255.255.255.255"@,
{
    reveal_strlit(".255");
    the_last_separator_cuts(subnet, '.', last);
    assert(".255"@ =~= seq!['.', '2', '5', '5']);
}

/// A container is reported under its machine and its name with its state, and as
/// running where that is its state.
pub proof fn a_container_is_reported_as_it_is(
    device: Seq<char>,
    name: Seq<char>,
    status: Seq<char>,
)
    ensures
        container_view(device, name, status).get("device"@) == Some(JsonView::Str(device)),
        container_view(device, name, status).get("name"@) == Some(JsonView::Str(name)),
        container_view(device, name, status).get("status"@) == Some(JsonView::Str(status)),
        container_view(device, name, status).get("running"@) == Some(
            JsonView::Bool(status == "running"@),
        ),
{
    broadcast use crate::json::reading_behind_setting;

    reveal_strlit("device");
    reveal_strlit("name");
    reveal_strlit("status");
    reveal_strlit("running");
    assert("device"@[0] == 'd');
    assert("status"@[0] == 's');
}

/// The containers that a machine wants are those that are configured for it, in
/// their order.
pub proof fn a_machine_wants_its_configured_containers(d: Device, i: int)
    ensures
        d.docker is None ==> wanted_on(d).len() == 0,
        d.docker matches Some(c) ==> wanted_on(d).len() == c.containers@.len() && (0 <= i
            < c.containers@.len() ==> wanted_on(d)[i] == c.containers@[i].title()),
{
}

/// Every row of the list of containers is one of a machine that is listed: the
/// host, or one with containers configured.
pub proof fn every_container_row_has_its_machine(
    devices: Seq<Device>,
    states: Seq<Option<JsonMap>>,
    i: int,
) -> (at: (int, int))
    requires
        0 <= i < all_rows(devices, states).len(),
    ensures
        0 <= at.0 < devices.len(),
        devices[at.0].is_host || wanted_on(devices[at.0]).len() > 0,
        0 <= at.1 < container_rows(
            devices[at.0].id@,
            wanted_on(devices[at.0]),
            states_or_none(states[at.0]),
        ).len(),
        all_rows(devices, states)[i] == container_rows(
            devices[at.0].id@,
            wanted_on(devices[at.0]),
            states_or_none(states[at.0]),
        )[at.1],
    decreases devices.len(),
{
    let front = devices.drop_last();
    let before = all_rows(front, states);
    if i < before.len() {
        let at = every_container_row_has_its_machine(front, states, i);
        assert(front[at.0] == devices[at.0]);
        at
    } else {
        (devices.len() - 1, i - before.len())
    }
}

/// The containers of every machine that is listed are in the list, together and
/// in their order, behind those of the machines before it.
pub proof fn every_listed_machine_shows_its_containers(
    devices: Seq<Device>,
    states: Seq<Option<JsonMap>>,
    k: int,
)
    requires
        0 <= k < devices.len(),
    ensures
        ({
            let rows = container_rows(
                devices[k].id@,
                wanted_on(devices[k]),
                states_or_none(states[k]),
            );
            let from = all_rows(devices.take(k), states).len() as int;
            &&& devices[k].is_host || wanted_on(devices[k]).len() > 0 ==> from + rows.len()
                <= all_rows(devices, states).len() && all_rows(devices, states).subrange(
                from,
                from + rows.len(),
            ) == rows
            &&& !devices[k].is_host && wanted_on(devices[k]).len() == 0 ==> all_rows(
                devices.take(k + 1),
                states,
            ) == all_rows(devices.take(k), states)
        }),
    decreases devices.len(),
{
    let front = devices.drop_last();
    let rows = container_rows(devices[k].id@, wanted_on(devices[k]), states_or_none(states[k]));
    let from = all_rows(devices.take(k), states).len() as int;
    let all = all_rows(devices, states);
    assert(devices.take(k + 1).drop_last() =~= devices.take(k));
    if k == devices.len() - 1 {
        assert(devices.take(k) =~= front);
        if devices[k].is_host || wanted_on(devices[k]).len() > 0 {
            assert(all.subrange(from, from + rows.len()) =~= rows);
        }
    } else {
        assert(front[k] == devices[k]);
        assert(front.take(k) =~= devices.take(k));
        every_listed_machine_shows_its_containers(front, states, k);
        let before = all_rows(front, states);
        if devices[k].is_host || wanted_on(devices[k]).len() > 0 {
            assert(all.subrange(from, from + rows.len()) =~= before.subrange(
                from,
                from + rows.len(),
            ));
        }
    }
}

/// The names that there are to choose from are those of the members, in their
/// order.
pub proof fn the_names_are_those_of_the_members(m: Fields, i: int)
    requires
        0 <= i < m.len(),
    ensures
        names_view(m).len() == m.len(),
        names_view(m)[i] == JsonView::Str(m[i].0),
{
}

/// A path that leaves the root is forbidden; any other failure is reported with
/// its reason.
pub proof fn a_refused_path_is_told_from_a_failure(e: FileError)
    ensures
        e is Escape ==> file_error_view(e).status == 403,
        e !is Escape ==> file_error_view(e).status == 502,
        file_error_view(e).body matches Some(v) && v.get("success"@) == Some(JsonView::Bool(false))
            && (e is Escape ==> v.get("error"@) == Some(
            JsonView::Str("That path is outside the configured root"@),
        )) && (e !is Escape ==> v.get("error"@) == Some(JsonView::Str(e.reads()))),
{
    broadcast use crate::json::reading_behind_setting;

    reveal_strlit("success");
    reveal_strlit("error");
    reveal_strlit("That path is outside the configured root");
    assert("success"@.len() == 7 && "error"@.len() == 5);
    assert("That path is outside the configured root"@.len() == 40);
}

/// A file is binary where one of its first 4096 bytes is zero.
pub proof fn a_zero_byte_tells_binary_data(bytes: Seq<u8>, i: int)
    ensures
        0 <= i < bytes.len() && i < 4096 && bytes[i] == 0 ==> is_binary(bytes),
        is_binary(bytes) ==> exists|k: int| 0 <= k < bytes.len() && k < 4096 && bytes[k] == 0,
{
}

/// A container is known where some machine has it configured, and nowhere else.
pub proof fn a_container_is_known_where_it_is_configured(
    devices: Seq<Device>,
    name: Seq<char>,
    i: int,
)
    ensures
        0 <= i < devices.len() && wanted_on(devices[i]).contains(name) ==> is_known(devices, name),
        (forall|k: int| 0 <= k < devices.len() ==> !wanted_on(#[trigger] devices[k]).contains(name))
            ==> !is_known(devices, name),
{
}

/// The limits of the control plane.
pub proof fn the_limits_of_the_control_plane()
    ensures
        STATUS_TTL == 15,
        STATUS_KEY@ == "device-status"@,
        MAX_PREVIEW_BYTES == 512 * 1024,
        DOCKER_LIST@ == "docker ps -a --format '{{.Names}}:{{.State}}'"@,
{
}

} // verus!
