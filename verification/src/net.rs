//! Wake-on-LAN and containers.

use vstd::prelude::*;

use crate::bytes::{lossy, lossy_text};
use crate::errors::NetError;
use crate::json::{
    field, keys_ascend, set_keeps_keys_ascending, with_field, Fields, Json, JsonMap, JsonView,
};
use crate::numbers::{decimal, hex_pair, hex_text, hex_text_reads_back, to_decimal};
use crate::shell::{settle, settled, Finished};
use crate::text::{
    alnum, ascii_lower, chars_of, concat2, concat3, cut, hex_digit, is_alnum, is_hex,
    lemma_split_head, lemma_split_plain, lines, same, split_lines, split_once, to_ascii_lower,
    views,
};

verus! {

// ---------------------------------------------------------------------------
// Wake-on-LAN
// ---------------------------------------------------------------------------

/// The characters that may stand between the digits of a MAC address.
pub open spec fn is_mac_separator(c: char) -> bool {
    c == ':' || c == '-' || c == '.' || c == ' '
}

/// The text without the separators of a MAC address.
pub open spec fn bare_mac(s: Seq<char>) -> Seq<char>
    decreases s.len(),
{
    if s.len() == 0 {
        s
    } else if is_mac_separator(s.last()) {
        bare_mac(s.drop_last())
    } else {
        bare_mac(s.drop_last()).push(s.last())
    }
}

/// The six bytes of a MAC address: twelve hexadecimal digits, however they are
/// separated.
pub open spec fn mac_of(s: Seq<char>) -> Option<Seq<u8>> {
    let c = bare_mac(s);
    if c.len() == 12 && (forall|i: int| 0 <= i < 12 ==> is_hex(#[trigger] c[i])) {
        Some(Seq::new(6, |i: int| hex_pair(c[2 * i], c[2 * i + 1])))
    } else {
        None
    }
}

/// The digits of a MAC address, without separators.
fn mac_digits(input: &str) -> (r: Vec<char>)
    ensures
        r@ == bare_mac(input@),
{
    let v = chars_of(input);
    let mut out: Vec<char> = Vec::new();
    let mut i: usize = 0;
    assert(v@.take(0) =~= Seq::<char>::empty());
    while i < v.len()
        invariant
            i <= v@.len(),
            out@ == bare_mac(v@.take(i as int)),
        decreases v.len() - i,
    {
        let c = v[i];
        if !(c == ':' || c == '-' || c == '.' || c == ' ') {
            out.push(c);
        }
        i = i + 1;
        assert(v@.take(i as int).drop_last() =~= v@.take(i - 1));
        assert(v@.take(i as int).last() == c);
    }
    assert(v@.take(i as int) =~= v@);
    out
}

/// Reads a MAC address such as `aa:bb:cc:dd:ee:ff`, `aa-bb-cc-dd-ee-ff` or
/// `aabbccddeeff`.
pub fn parse_mac(input: &str) -> (r: Result<[u8; 6], NetError>)
    ensures
        match (r, mac_of(input@)) {
            (Ok(mac), Some(m)) => mac@ == m,
            (Err(NetError::Mac(t)), None) => t@ == input@,
            _ => false,
        },
{
    let c = mac_digits(input);
    if c.len() != 12 {
        return Err(NetError::Mac(String::from_str(input)));
    }
    let mut out: [u8; 6] = [0, 0, 0, 0, 0, 0];
    let mut i: usize = 0;
    while i < 6
        invariant
            i <= 6,
            c@ == bare_mac(input@),
            c@.len() == 12,
            forall|j: int| 0 <= j < 2 * i ==> is_hex(#[trigger] c@[j]),
            forall|j: int| 0 <= j < i ==> out@[j] == #[trigger] hex_pair(c@[2 * j], c@[2 * j + 1]),
        decreases 6 - i,
    {
        match (hex_digit(c[2 * i]), hex_digit(c[2 * i + 1])) {
            (Some(hi), Some(lo)) => {
                out[i] = 16 * hi + lo;
            },
            _ => {
                assert(!is_hex(c@[2 * i as int]) || !is_hex(c@[2 * i as int + 1]));
                return Err(NetError::Mac(String::from_str(input)));
            },
        }
        i = i + 1;
    }
    assert(out@ =~= mac_of(input@)->0);
    Ok(out)
}

/// The digits of joined texts are the joined digits.
proof fn lemma_bare_concat(a: Seq<char>, b: Seq<char>)
    ensures
        bare_mac(a + b) == bare_mac(a) + bare_mac(b),
    decreases b.len(),
{
    if b.len() == 0 {
        assert(a + b =~= a);
        assert(bare_mac(a) + bare_mac(b) =~= bare_mac(a));
    } else {
        assert((a + b).drop_last() =~= a + b.drop_last());
        lemma_bare_concat(a, b.drop_last());
        assert(bare_mac(a + b) =~= bare_mac(a) + bare_mac(b));
    }
}

/// A separator put in anywhere, or taken out, leaves the address the same.
pub proof fn separators_do_not_matter(before: Seq<char>, c: char, after: Seq<char>)
    requires
        is_mac_separator(c),
    ensures
        mac_of(before + seq![c] + after) == mac_of(before + after),
{
    lemma_bare_concat(before + seq![c], after);
    lemma_bare_concat(before, seq![c]);
    lemma_bare_concat(before, after);
    assert(seq![c].drop_last() =~= Seq::<char>::empty());
    assert(bare_mac(Seq::<char>::empty()) =~= Seq::<char>::empty());
    assert(seq![c].last() == c);
    assert(bare_mac(seq![c]) =~= Seq::<char>::empty());
    assert(bare_mac(before) + bare_mac(seq![c]) =~= bare_mac(before));
}

/// The packet that wakes a machine: six bytes of ones, then the address sixteen
/// times.
pub open spec fn wake_packet(mac: Seq<u8>) -> Seq<u8> {
    Seq::new(
        102,
        |i: int|
            if i < 6 {
                0xff
            } else {
                mac[(i - 6) % 6]
            },
    )
}

/// The packet that wakes a machine.
pub fn magic_packet(mac: [u8; 6]) -> (r: Vec<u8>)
    ensures
        r@ == wake_packet(mac@),
{
    let mut packet: Vec<u8> = Vec::new();
    let mut i: usize = 0;
    while i < 102
        invariant
            i <= 102,
            packet@.len() == i,
            forall|j: int| 0 <= j < i ==> packet@[j] == wake_packet(mac@)[j],
        decreases 102 - i,
    {
        if i < 6 {
            packet.push(0xff);
        } else {
            packet.push(mac[(i - 6) % 6]);
        }
        i = i + 1;
    }
    assert(packet@ =~= wake_packet(mac@));
    packet
}

/// The ports that the packet is sent to, in this order.
pub open spec fn wake_ports() -> Seq<u16> {
    seq![9u16, 7u16]
}

/// What to send to wake a machine.
#[derive(Debug)]
pub struct Wake {
    pub packet: Vec<u8>,
    pub ports: Vec<u16>,
}

/// What to send to wake the machine with that MAC address. `reads` says whether
/// the broadcast text reads as an IP address.
pub fn wake_on_lan(mac: &str, broadcast: &str, reads: bool) -> (r: Result<Wake, NetError>)
    ensures
        match (r, mac_of(mac@)) {
            (Ok(w), Some(m)) => reads && w.packet@ == wake_packet(m) && w.ports@ == wake_ports(),
            (Err(NetError::Mac(t)), None) => t@ == mac@,
            (Err(NetError::Other(t)), Some(_)) => !reads && t@ == "invalid broadcast address: "@
                + broadcast@,
            _ => false,
        },
{
    let bytes = match parse_mac(mac) {
        Ok(bytes) => bytes,
        Err(e) => {
            return Err(e);
        },
    };
    let packet = magic_packet(bytes);
    if !reads {
        return Err(NetError::Other(concat2("invalid broadcast address: ", broadcast)));
    }
    let mut ports: Vec<u16> = Vec::new();
    ports.push(9);
    ports.push(7);
    assert(ports@ =~= wake_ports());
    Ok(Wake { packet, ports })
}

/// The address to try for a TCP connection.
pub fn tcp_address(host: &str, port: u16) -> (r: String)
    ensures
        r@ == host@ + ":"@ + decimal(port as nat),
{
    let p = to_decimal(port as u128);
    concat3(host, ":", p.as_str())
}

// ---------------------------------------------------------------------------
// Commands
// ---------------------------------------------------------------------------

/// What came of a local command: it did not end in time, it could not be
/// started, or it ended.
pub fn run(program: &str, done: Option<Result<Finished, String>>) -> (r: Result<String, NetError>)
    ensures
        match done {
            None => r matches Err(NetError::Other(m)) && m@ == program@ + " timed out"@,
            Some(Err(e)) => r == Err::<String, NetError>(NetError::Io(e)),
            Some(Ok(d)) => match (
                r,
                settled(
                    d.success,
                    d.status@,
                    lossy_text(d.stdout@),
                    lossy_text(d.stderr@),
                    program@ + " exited with "@,
                    200,
                ),
            ) {
                (Ok(a), Ok(b)) => a@ == b,
                (Err(NetError::Other(a)), Err(b)) => a@ == b,
                _ => false,
            },
        },
{
    let d = match done {
        None => {
            return Err(NetError::Other(concat2(program, " timed out")));
        },
        Some(Err(e)) => {
            return Err(NetError::Io(e));
        },
        Some(Ok(d)) => d,
    };
    let stdout = lossy(&d.stdout);
    let stderr = lossy(&d.stderr);
    let lead = concat2(program, " exited with ");
    match settle(
        d.success,
        d.status.as_str(),
        stdout.as_str(),
        stderr.as_str(),
        lead.as_str(),
        200,
    ) {
        Ok(text) => Ok(text),
        Err(why) => Err(NetError::Other(why)),
    }
}

// ---------------------------------------------------------------------------
// Containers
// ---------------------------------------------------------------------------

/// The characters that a container name may hold behind its first.
pub open spec fn is_name_char(c: char) -> bool {
    is_alnum(c) || c == '_' || c == '.' || c == '-'
}

/// Is this a name that Docker gives to containers? It starts with a letter or a
/// digit, goes on with those and `_`, `.` and `-`, and has at most 128
/// characters.
pub open spec fn is_container_name(s: Seq<char>) -> bool {
    &&& 0 < s.len() <= 128
    &&& is_alnum(s[0])
    &&& forall|i: int| 0 <= i < s.len() ==> is_name_char(#[trigger] s[i])
}

/// Is this a proper container name?
pub fn valid_container_name(name: &str) -> (r: bool)
    ensures
        r == is_container_name(name@),
{
    let v = chars_of(name);
    if v.len() == 0 || v.len() > 128 || !alnum(v[0]) {
        return false;
    }
    let mut i: usize = 0;
    while i < v.len()
        invariant
            i <= v@.len(),
            v@ == name@,
            forall|j: int| 0 <= j < i ==> is_name_char(#[trigger] v@[j]),
        decreases v.len() - i,
    {
        let c = v[i];
        if !(alnum(c) || c == '_' || c == '.' || c == '-') {
            assert(!is_name_char(v@[i as int]));
            return false;
        }
        i = i + 1;
    }
    true
}

/// A container name never starts an option, and holds nothing that a shell or a
/// filesystem gives a meaning to.
pub proof fn container_names_are_harmless(s: Seq<char>, i: int)
    requires
        is_container_name(s),
        0 <= i < s.len(),
    ensures
        s[0] != '-',
        s[0] != '.',
        s[i] != '/',
        s[i] != ' ',
        s[i] != '\n',
        s[i] != ';',
        s[i] != '$',
        s[i] != '`',
        s[i] != '\'',
        s[i] != '"',
        s[i] != '|',
        s[i] != '&',
{
    assert(is_name_char(s[i]));
}

/// The states of containers from rows such as `plex:running`. A row without a
/// colon says nothing; where a name comes twice, the last row holds.
pub open spec fn states_of(rows: Seq<Seq<char>>) -> Fields
    decreases rows.len(),
{
    if rows.len() == 0 {
        seq![]
    } else {
        let before = states_of(rows.drop_last());
        match cut(rows.last(), ':') {
            Some((name, state)) => with_field(before, name, JsonView::Str(ascii_lower(state))),
            None => before,
        }
    }
}

/// Every container is listed once, in the order of the names.
pub proof fn states_are_in_order(rows: Seq<Seq<char>>)
    ensures
        keys_ascend(states_of(rows)),
    decreases rows.len(),
{
    if rows.len() > 0 {
        states_are_in_order(rows.drop_last());
        if let Some((name, state)) = cut(rows.last(), ':') {
            set_keeps_keys_ascending(
                states_of(rows.drop_last()),
                name,
                JsonView::Str(ascii_lower(state)),
            );
        }
    }
}

/// The states of containers, by name, from the output of `docker ps`.
pub fn container_states(out: &str) -> (r: JsonMap)
    ensures
        r@ == states_of(lines(out@)),
        r.wf(),
{
    let rows = split_lines(out);
    let ghost rv = views(rows@);
    let mut states = JsonMap::new();
    let mut i: usize = 0;
    while i < rows.len()
        invariant
            i <= rows@.len(),
            rv == views(rows@),
            states@ == states_of(rv.take(i as int)),
            states.wf(),
        decreases rows.len() - i,
    {
        proof {
            assert(rv.take(i + 1).drop_last() =~= rv.take(i as int));
            assert(rv.take(i + 1).last() == rows@[i as int]@);
        }
        if let Some((name, state)) = split_once(rows[i].as_str(), ':') {
            let low = to_ascii_lower(state.as_str());
            states.insert(name.as_str(), Json::text(low.as_str()));
        }
        i = i + 1;
    }
    assert(rv.take(i as int) =~= rv);
    states
}

/// What can be done with a container.
#[derive(Debug, Clone, Copy, PartialEq, Eq, Structural)]
pub enum ContainerAction {
    Start,
    Stop,
    Restart,
}

impl ContainerAction {
    /// The name of the action.
    pub open spec fn label(self) -> Seq<char> {
        match self {
            ContainerAction::Start => "start"@,
            ContainerAction::Stop => "stop"@,
            ContainerAction::Restart => "restart"@,
        }
    }

    /// The action of that name. There are no others.
    pub fn from_name(name: &str) -> (r: Option<ContainerAction>)
        ensures
            match r {
                Some(a) => name@ == a.label(),
                None => forall|a: ContainerAction| name@ != #[trigger] a.label(),
            },
    {
        if same(name, "start") {
            Some(ContainerAction::Start)
        } else if same(name, "stop") {
            Some(ContainerAction::Stop)
        } else if same(name, "restart") {
            Some(ContainerAction::Restart)
        } else {
            None
        }
    }

    /// The verb that Docker knows the action by.
    pub fn verb(self) -> (r: &'static str)
        ensures
            r@ == self.label(),
    {
        match self {
            ContainerAction::Start => "start",
            ContainerAction::Stop => "stop",
            ContainerAction::Restart => "restart",
        }
    }
}

/// The arguments with which `docker` does it. A name that is no container name
/// is refused before anything runs.
pub fn container_action(name: &str, action: ContainerAction) -> (r: Result<Vec<String>, NetError>)
    ensures
        match r {
            Ok(args) => is_container_name(name@) && views(args@) == seq![action.label(), name@],
            Err(NetError::Other(m)) => !is_container_name(name@) && m@
                == "invalid container name: "@ + name@,
            Err(_) => false,
        },
{
    if !valid_container_name(name) {
        return Err(NetError::Other(concat2("invalid container name: ", name)));
    }
    let mut args: Vec<String> = Vec::new();
    args.push(String::from_str(action.verb()));
    args.push(String::from_str(name));
    assert(views(args@) =~= seq![action.label(), name@]);
    Ok(args)
}

// ---------------------------------------------------------------------------
// Laws of addresses, packets and states
// ---------------------------------------------------------------------------

/// Hexadecimal digits are no separators.
proof fn lemma_bare_hex(s: Seq<char>)
    requires
        forall|i: int| 0 <= i < s.len() ==> is_hex(#[trigger] s[i]),
    ensures
        bare_mac(s) == s,
    decreases s.len(),
{
    if s.len() > 0 {
        let t = s.drop_last();
        assert forall|i: int| 0 <= i < t.len() implies is_hex(#[trigger] t[i]) by {
            assert(is_hex(s[i]));
        }
        lemma_bare_hex(t);
        assert(is_hex(s[s.len() - 1]));
        assert(t.push(s.last()) =~= s);
    }
}

/// An address in hexadecimal is read as the bytes that it was written from.
pub proof fn a_written_address_reads_back(mac: Seq<u8>)
    requires
        mac.len() == 6,
    ensures
        mac_of(hex_text(mac)) == Some(mac),
{
    let c = hex_text(mac);
    hex_text_reads_back(mac, 0);
    assert forall|i: int| 0 <= i < 12 implies is_hex(#[trigger] c[i]) by {
        hex_text_reads_back(mac, i / 2);
        assert(i == 2 * (i / 2) || i == 2 * (i / 2) + 1);
    }
    lemma_bare_hex(c);
    assert forall|i: int| 0 <= i < 6 implies hex_pair(#[trigger] c[2 * i], c[2 * i + 1]) == mac[i] by {
        hex_text_reads_back(mac, i);
    }
    let m = mac_of(c)->0;
    assert forall|i: int| 0 <= i < 6 implies m[i] == mac[i] by {
        hex_text_reads_back(mac, i);
    }
    assert(m =~= mac);
}

/// What is read as an address are the six pairs of its twelve digits, in their
/// order; with fewer or more digits, or with anything else between them, it is no
/// address.
pub proof fn an_address_has_twelve_digits(s: Seq<char>, i: int)
    requires
        0 <= i < 6,
    ensures
        mac_of(s) is Some ==> bare_mac(s).len() == 12 && mac_of(s)->0.len() == 6 && is_hex(
            bare_mac(s)[2 * i],
        ) && is_hex(bare_mac(s)[2 * i + 1]) && mac_of(s)->0[i] == hex_pair(
            bare_mac(s)[2 * i],
            bare_mac(s)[2 * i + 1],
        ),
        bare_mac(s).len() != 12 ==> mac_of(s) is None,
{
}

/// Between the digits there may be colons, dashes, dots and spaces, and nothing
/// else.
pub proof fn the_separators_of_an_address(c: char)
    ensures
        is_mac_separator(c) <==> c == ':' || c == '-' || c == '.' || c == ' ',
        is_mac_separator(c) ==> bare_mac(seq![c]) == Seq::<char>::empty(),
        !is_mac_separator(c) ==> bare_mac(seq![c]) == seq![c],
{
    reveal_with_fuel(bare_mac, 2);
    assert(seq![c].drop_last() =~= Seq::<char>::empty());
    assert(Seq::<char>::empty().push(c) =~= seq![c]);
}

/// The packet that wakes a machine is 102 bytes long: six bytes of ones, and then
/// sixteen copies of the address, byte for byte.
pub proof fn the_packet_repeats_the_address(mac: Seq<u8>, copy: int, i: int)
    requires
        mac.len() == 6,
        0 <= copy < 16,
        0 <= i < 6,
    ensures
        wake_packet(mac).len() == 102,
        wake_packet(mac)[i] == 0xff,
        wake_packet(mac)[6 + 6 * copy + i] == mac[i],
        wake_ports().contains(9) && wake_ports().contains(7) && wake_ports().len() == 2,
{
    assert((6 * copy + i) % 6 == i);
    assert(wake_ports()[0] == 9 && wake_ports()[1] == 7);
}

/// A row gives the container in front of its first colon the state behind it, in
/// lower case, whatever earlier rows said of it; it says nothing of any other. A
/// row without a colon says nothing at all.
pub proof fn a_row_sets_the_state_of_its_container(
    rows: Seq<Seq<char>>,
    name: Seq<char>,
    state: Seq<char>,
    other: Seq<char>,
)
    requires
        !name.contains(':'),
    ensures
        ({
            let after = states_of(rows.push(name + seq![':'] + state));
            &&& field(after, name) == Some(JsonView::Str(ascii_lower(state)))
            &&& other != name ==> field(after, other) == field(states_of(rows), other)
        }),
        states_of(rows.push(name)) == states_of(rows),
        states_of(seq![]) == Fields::empty(),
{
    broadcast use crate::json::reading_behind_setting;

    let row = name + seq![':'] + state;
    lemma_split_head(name, ':', state);
    lemma_split_plain(name, ':');
    assert(rows.push(row).drop_last() =~= rows);
    assert(rows.push(name).drop_last() =~= rows);
}

/// Docker knows the actions by their names.
pub proof fn the_actions_have_their_names(a: ContainerAction)
    ensures
        a is Start ==> a.label() == "start"@,
        a is Stop ==> a.label() == "stop"@,
        a is Restart ==> a.label() == "restart"@,
{
}

/// Every name that starts with a letter or a digit, goes on with those, with `_`,
/// `.` or `-`, and has at most 128 characters is a container name; there are no
/// others.
pub proof fn proper_container_names(s: Seq<char>)
    ensures
        is_container_name(s) <==> 1 <= s.len() <= 128 && is_alnum(s[0]) && forall|i: int|
            0 <= i < s.len() ==> is_alnum(#[trigger] s[i]) || s[i] == '_' || s[i] == '.' || s[i]
                == '-',
{
    if is_container_name(s) {
        assert forall|i: int| 0 <= i < s.len() implies is_alnum(#[trigger] s[i]) || s[i] == '_' || s[i]
            == '.' || s[i] == '-' by {
            assert(is_name_char(s[i]));
        }
    }
}

} // verus!
