//! Commands for remote hosts: quoting, the `ssh` command line, and what the
//! outcome of a remote command means.

use base64::Engine;
use vstd::prelude::*;
use vstd::utf8::*;

use crate::bytes::{lossy, lossy_text};
use crate::errors::{ExecError, Limit};
use crate::numbers::{decimal, decimal_reads_back, parse_unsigned, to_decimal};
use crate::text::{
    ascii_lower, begins, blank, chars_of, clip, clipped, clipping_keeps_the_beginning, concat2,
    concat3, contains, find, holds, holds_at, is_alnum, is_blank, lemma_find, same, to_ascii_lower,
    trim, trimmed, views,
};

verus! {

// ---------------------------------------------------------------------------
// Quoting
// ---------------------------------------------------------------------------

/// How one character stands inside single quotes: as itself, or, for the quote,
/// as a closing quote, an escaped quote and an opening quote.
pub open spec fn quoted_char(c: char) -> Seq<char> {
    if c == '\'' {
        seq!['\'', '\\', '\'', '\'']
    } else {
        seq![c]
    }
}

/// The characters of the value as they stand inside single quotes.
pub open spec fn quoted_body(value: Seq<char>) -> Seq<char>
    decreases value.len(),
{
    if value.len() == 0 {
        seq![]
    } else {
        quoted_body(value.drop_last()) + quoted_char(value.last())
    }
}

/// The value as one shell word.
pub open spec fn quoted(value: Seq<char>) -> Seq<char> {
    seq!['\''] + quoted_body(value) + seq!['\'']
}

/// The value of a shell word that is made of single-quoted pieces and escaped
/// characters only, as a POSIX shell reads it. `inside` says whether an opening
/// quote has been read. There is none where the word is of another kind or a
/// quote is left open.
pub open spec fn word_value(s: Seq<char>, inside: bool) -> Option<Seq<char>>
    decreases s.len(),
{
    if s.len() == 0 {
        if inside {
            None
        } else {
            Some(seq![])
        }
    } else if s[0] == '\'' {
        word_value(s.drop_first(), !inside)
    } else if inside {
        match word_value(s.drop_first(), true) {
            Some(rest) => Some(seq![s[0]] + rest),
            None => None,
        }
    } else if s[0] == '\\' && s.len() > 1 {
        match word_value(s.skip(2), false) {
            Some(rest) => Some(seq![s[1]] + rest),
            None => None,
        }
    } else {
        None
    }
}

/// `quoted_body` can be read from the front as well.
proof fn lemma_quoted_front(value: Seq<char>)
    requires
        value.len() > 0,
    ensures
        quoted_body(value) == quoted_char(value[0]) + quoted_body(value.drop_first()),
    decreases value.len(),
{
    if value.len() == 1 {
        assert(value.drop_last() =~= Seq::<char>::empty());
        assert(value.drop_first() =~= Seq::<char>::empty());
        assert(quoted_body(value) =~= quoted_char(value[0]) + quoted_body(value.drop_first()));
    } else {
        lemma_quoted_front(value.drop_last());
        assert(value.drop_last().drop_first() =~= value.drop_first().drop_last());
        assert(quoted_body(value) =~= quoted_char(value[0]) + quoted_body(value.drop_first()));
    }
}

/// A quoted value, with its opening quote read, reads back as the value.
proof fn lemma_body_reads_back(value: Seq<char>)
    ensures
        word_value(quoted_body(value) + seq!['\''], true) == Some(value),
    decreases value.len(),
{
    let end = seq!['\''];
    let s = quoted_body(value) + end;
    if value.len() == 0 {
        assert(s =~= end);
        assert(s.drop_first() =~= Seq::<char>::empty());
        assert(word_value(s.drop_first(), false) == Some(Seq::<char>::empty()));
        assert(value =~= Seq::<char>::empty());
    } else {
        let rest = value.drop_first();
        lemma_quoted_front(value);
        lemma_body_reads_back(rest);
        let t = quoted_body(rest) + end;
        assert(value =~= seq![value[0]] + rest);
        if value[0] == '\'' {
            assert(s.drop_first() =~= seq!['\\', '\'', '\''] + t);
            let u = s.drop_first();
            assert(u.skip(2) =~= seq!['\''] + t);
            assert(u.skip(2).drop_first() =~= t);
            assert(word_value(u.skip(2), false) == Some(rest));
            assert(word_value(u, false) == Some(seq!['\''] + rest));
        } else {
            assert(s.drop_first() =~= t);
        }
    }
}

/// Whatever the value holds, the shell reads its quoted form as one word, and
/// that word is the value.
pub proof fn quoting_keeps_the_value(value: Seq<char>)
    ensures
        word_value(quoted(value), false) == Some(value),
{
    lemma_body_reads_back(value);
    assert(quoted(value).drop_first() =~= quoted_body(value) + seq!['\'']);
}

/// Wraps a text for safe use as one shell word.
pub fn quote(value: &str) -> (r: String)
    ensures
        r@ == quoted(value@),
{
    let v = chars_of(value);
    let mut out = String::new();
    out.push('\'');
    let mut i: usize = 0;
    assert(value@.take(0) =~= Seq::<char>::empty());
    assert(out@ =~= seq!['\''] + quoted_body(value@.take(0)));
    while i < v.len()
        invariant
            i <= v@.len(),
            v@ == value@,
            out@ == seq!['\''] + quoted_body(value@.take(i as int)),
        decreases v.len() - i,
    {
        let ghost before = out@;
        if v[i] == '\'' {
            out.push('\'');
            out.push('\\');
            out.push('\'');
            out.push('\'');
        } else {
            out.push(v[i]);
        }
        assert(out@ =~= before + quoted_char(v@[i as int]));
        assert(value@.take(i + 1).drop_last() =~= value@.take(i as int));
        assert(out@ =~= seq!['\''] + quoted_body(value@.take(i + 1)));
        i = i + 1;
    }
    assert(value@.take(i as int) =~= value@);
    out.push('\'');
    assert(out@ =~= quoted(value@));
    out
}

// ---------------------------------------------------------------------------
// Scripts
// ---------------------------------------------------------------------------

/// What `base64`'s `STANDARD` engine writes for the bytes.
pub uninterp spec fn base64_text(data: Seq<u8>) -> Seq<char>;

/// The characters that base64 text is made of.
pub open spec fn is_base64(c: char) -> bool {
    is_alnum(c) || c == '+' || c == '/' || c == '='
}

/// Encodes text with `base64::Engine::encode` of the `STANDARD` engine. The
/// contract names the result, which depends on the text's bytes alone, and says
/// two things of it: it is made of the standard alphabet and the padding sign,
/// and it is empty only for the empty text. As elsewhere, running out of memory
/// is not considered.
#[verifier::external_body]
pub fn b64(data: &str) -> (r: String)
    ensures
        r@ == base64_text(encode_utf8(data@)),
        forall|i: int| 0 <= i < r@.len() ==> is_base64(#[trigger] r@[i]),
        r@.len() == 0 <==> data@.len() == 0,
{
    base64::engine::general_purpose::STANDARD.encode(data.as_bytes())
}

/// The command that runs a script: no character of the script itself reaches
/// the login shell.
pub open spec fn script_text(script: Seq<char>) -> Seq<char> {
    "echo "@ + base64_text(encode_utf8(script)) + " | base64 -d | sh"@
}

/// The command that sends a script and runs it.
pub fn script_command(script: &str) -> (r: String)
    ensures
        r@ == script_text(script@),
        forall|i: int|
            5 <= i < r@.len() - " | base64 -d | sh"@.len() ==> is_base64(#[trigger] r@[i]),
{
    let code = b64(script);
    let r = concat3("echo ", code.as_str(), " | base64 -d | sh");
    proof {
        reveal_strlit("echo ");
        assert forall|i: int|
            5 <= i < r@.len() - " | base64 -d | sh"@.len() implies is_base64(#[trigger] r@[i]) by {
            assert(r@[i] == code@[i - 5]);
        }
    }
    r
}

// ---------------------------------------------------------------------------
// Targets
// ---------------------------------------------------------------------------

/// How to reach a host.
#[derive(Debug, Clone)]
pub struct SshTarget {
    pub ip: String,
    pub user: String,
    /// The port, or 0 for the usual one.
    pub port: u16,
    /// An identity file to use.
    pub key: Option<String>,
}

impl Default for SshTarget {
    fn default() -> (r: SshTarget)
        ensures
            r.ip@.len() == 0,
            r.user@.len() == 0,
            r.port == 0,
            r.key is None,
    {
        SshTarget { ip: String::new(), user: String::new(), port: 0, key: None }
    }
}

/// The SSH port that a configured port stands for.
pub open spec fn port_used(port: u16) -> u16 {
    if port == 0 {
        22
    } else {
        port
    }
}

/// The options that every `ssh` call gets.
pub open spec fn fixed_options() -> Seq<Seq<char>> {
    seq![
        "-o"@,
        "BatchMode=yes"@,
        "-o"@,
        "StrictHostKeyChecking=accept-new"@,
        "-o"@,
        "ConnectTimeout=5"@,
        "-o"@,
        "ServerAliveInterval=10"@,
        "-o"@,
        "ServerAliveCountMax=2"@,
        "-p"@,
    ]
}

impl SshTarget {
    /// The options of the `ssh` call: the fixed ones, the port, and the
    /// identity file where there is one.
    pub open spec fn options(self) -> Seq<Seq<char>> {
        let base = fixed_options().push(decimal(port_used(self.port) as nat));
        match self.key {
            Some(key) => base + seq!["-i"@, key@, "-o"@, "IdentitiesOnly=yes"@],
            None => base,
        }
    }

    /// The arguments of the `ssh` call that runs `command`.
    pub open spec fn call(self, command: Seq<char>) -> Seq<Seq<char>> {
        self.options().push(self.user@ + "@"@ + self.ip@).push(command)
    }

    /// Why the target cannot be reached at all, if so.
    pub open spec fn refusal(self) -> Option<Seq<char>> {
        if is_blank(self.ip@) {
            Some("no host configured"@)
        } else if is_blank(self.user@) {
            Some("no SSH user configured"@)
        } else {
            None
        }
    }

    /// The port to connect to.
    pub fn port_or_default(&self) -> (r: u16)
        ensures
            r == port_used(self.port),
    {
        if self.port == 0 {
            22
        } else {
            self.port
        }
    }

    /// The options of the `ssh` call.
    pub fn args(&self) -> (r: Vec<String>)
        ensures
            views(r@) == self.options(),
    {
        let mut args: Vec<String> = Vec::new();
        args.push(String::from_str("-o"));
        args.push(String::from_str("BatchMode=yes"));
        args.push(String::from_str("-o"));
        args.push(String::from_str("StrictHostKeyChecking=accept-new"));
        args.push(String::from_str("-o"));
        args.push(String::from_str("ConnectTimeout=5"));
        args.push(String::from_str("-o"));
        args.push(String::from_str("ServerAliveInterval=10"));
        args.push(String::from_str("-o"));
        args.push(String::from_str("ServerAliveCountMax=2"));
        args.push(String::from_str("-p"));
        args.push(to_decimal(self.port_or_default() as u128));
        assert(views(args@) =~= fixed_options().push(decimal(port_used(self.port) as nat)));
        if let Some(key) = &self.key {
            args.push(String::from_str("-i"));
            args.push(key.clone());
            args.push(String::from_str("-o"));
            args.push(String::from_str("IdentitiesOnly=yes"));
        }
        assert(views(args@) =~= self.options());
        args
    }

    /// The arguments with which `ssh` runs a command on the host. A target
    /// without a host or a user is refused before anything runs.
    pub fn run(&self, command: &str) -> (r: Result<Vec<String>, ExecError>)
        ensures
            match (r, self.refusal()) {
                (Ok(args), None) => views(args@) == self.call(command@),
                (Err(ExecError::Failed(m)), Some(why)) => m@ == why,
                _ => false,
            },
    {
        if blank(self.ip.as_str()) {
            return Err(ExecError::Failed(String::from_str("no host configured")));
        }
        if blank(self.user.as_str()) {
            return Err(ExecError::Failed(String::from_str("no SSH user configured")));
        }
        let mut args = self.args();
        let ghost before = views(args@);
        args.push(concat3(self.user.as_str(), "@", self.ip.as_str()));
        args.push(String::from_str(command));
        assert(views(args@) =~= self.call(command@));
        Ok(args)
    }

    /// The arguments with which `ssh` sends a script and runs it.
    pub fn script(&self, script: &str) -> (r: Result<Vec<String>, ExecError>)
        ensures
            match (r, self.refusal()) {
                (Ok(args), None) => views(args@) == self.call(script_text(script@)),
                (Err(ExecError::Failed(m)), Some(why)) => m@ == why,
                _ => false,
            },
    {
        let command = script_command(script);
        self.run(command.as_str())
    }

    /// The arguments with which `ssh` finds out whether the host is reachable.
    pub fn reachable(&self) -> (r: Result<Vec<String>, ExecError>)
        ensures
            match (r, self.refusal()) {
                (Ok(args), None) => views(args@) == self.call("true"@),
                (Err(ExecError::Failed(m)), Some(why)) => m@ == why,
                _ => false,
            },
    {
        self.run("true")
    }
}

// ---------------------------------------------------------------------------
// Outcomes
// ---------------------------------------------------------------------------

/// What a finished command printed and how it ended.
#[derive(Debug)]
pub struct Finished {
    pub success: bool,
    /// How the exit status reads.
    pub status: String,
    pub stdout: Vec<u8>,
    pub stderr: Vec<u8>,
}

/// The reason that a failed command gave, cut to `room` characters. A command
/// that gave none is reported by its exit status, behind `lead`.
pub open spec fn failure_text(
    status: Seq<char>,
    stderr: Seq<char>,
    lead: Seq<char>,
    room: int,
) -> Seq<char> {
    if is_blank(stderr) {
        lead + status
    } else {
        clipped(trimmed(stderr), room)
    }
}

/// The reason that a failed command gave.
fn explain(status: &str, stderr: &str, lead: &str, room: usize) -> (r: String)
    ensures
        r@ == failure_text(status@, stderr@, lead@, room as int),
{
    let err = trim(stderr);
    if err.as_str().is_empty() {
        concat2(lead, status)
    } else {
        clip(err.as_str(), room)
    }
}

/// What a command's end means: its trimmed output, or the reason why it
/// failed.
pub open spec fn settled(
    success: bool,
    status: Seq<char>,
    stdout: Seq<char>,
    stderr: Seq<char>,
    lead: Seq<char>,
    room: int,
) -> Result<Seq<char>, Seq<char>> {
    if success {
        Ok(trimmed(stdout))
    } else {
        Err(failure_text(status, stderr, lead, room))
    }
}

/// What a command's end means, given what its output reads as.
pub fn settle(
    success: bool,
    status: &str,
    stdout: &str,
    stderr: &str,
    lead: &str,
    room: usize,
) -> (r: Result<String, String>)
    ensures
        match (r, settled(success, status@, stdout@, stderr@, lead@, room as int)) {
            (Ok(a), Ok(b)) => a@ == b,
            (Err(a), Err(b)) => a@ == b,
            _ => false,
        },
{
    if success {
        Ok(trim(stdout))
    } else {
        Err(explain(status, stderr, lead, room))
    }
}

/// What came of an `ssh` call with a time limit: it did not end in time, it
/// could not be started, or it ended. What it printed is kept byte for byte.
pub fn ssh_output(done: Option<Result<Finished, String>>, limit: Limit) -> (r: Result<
    Vec<u8>,
    ExecError,
>)
    ensures
        match done {
            None => r == Err::<Vec<u8>, ExecError>(ExecError::Timeout(limit)),
            Some(Err(e)) => r == Err::<Vec<u8>, ExecError>(ExecError::Io(e)),
            Some(Ok(d)) => if d.success {
                r == Ok::<Vec<u8>, ExecError>(d.stdout)
            } else {
                r matches Err(ExecError::Failed(m)) && m@ == failure_text(
                    d.status@,
                    lossy_text(d.stderr@),
                    "ssh exited with "@,
                    300,
                )
            },
        },
{
    match done {
        None => Err(ExecError::Timeout(limit)),
        Some(Err(e)) => Err(ExecError::Io(e)),
        Some(Ok(d)) => if d.success {
            Ok(d.stdout)
        } else {
            let stderr = lossy(&d.stderr);
            Err(ExecError::Failed(explain(d.status.as_str(), stderr.as_str(), "ssh exited with ", 300)))
        },
    }
}

/// What came of an `ssh` call with a time limit, and what it printed as trimmed
/// text.
pub fn ssh_outcome(done: Option<Result<Finished, String>>, limit: Limit) -> (r: Result<
    String,
    ExecError,
>)
    ensures
        match done {
            None => r == Err::<String, ExecError>(ExecError::Timeout(limit)),
            Some(Err(e)) => r == Err::<String, ExecError>(ExecError::Io(e)),
            Some(Ok(d)) => match (
                r,
                settled(
                    d.success,
                    d.status@,
                    lossy_text(d.stdout@),
                    lossy_text(d.stderr@),
                    "ssh exited with "@,
                    300,
                ),
            ) {
                (Ok(a), Ok(b)) => a@ == b,
                (Err(ExecError::Failed(a)), Err(b)) => a@ == b,
                _ => false,
            },
        },
{
    match ssh_output(done, limit) {
        Ok(bytes) => {
            let stdout = lossy(&bytes);
            Ok(trim(stdout.as_str()))
        },
        Err(e) => Err(e),
    }
}

// ---------------------------------------------------------------------------
// Power
// ---------------------------------------------------------------------------

/// A power operation.
#[derive(Debug, Clone, Copy, PartialEq, Eq, Structural)]
pub enum PowerAction {
    Shutdown,
    Reboot,
    Suspend,
}

impl PowerAction {
    /// The name of the action.
    pub open spec fn label(self) -> Seq<char> {
        match self {
            PowerAction::Shutdown => "shutdown"@,
            PowerAction::Reboot => "reboot"@,
            PowerAction::Suspend => "suspend"@,
        }
    }

    /// The command of the action.
    pub open spec fn line(self) -> Seq<char> {
        match self {
            PowerAction::Shutdown => "sudo -n shutdown -h now"@,
            PowerAction::Reboot => "sudo -n reboot"@,
            PowerAction::Suspend => "sudo -n systemctl suspend"@,
        }
    }

    /// The name of the action.
    pub fn name(self) -> (r: &'static str)
        ensures
            r@ == self.label(),
    {
        match self {
            PowerAction::Shutdown => "shutdown",
            PowerAction::Reboot => "reboot",
            PowerAction::Suspend => "suspend",
        }
    }

    /// The action of that name. There are no others.
    pub fn from_name(name: &str) -> (r: Option<PowerAction>)
        ensures
            match r {
                Some(a) => name@ == a.label(),
                None => forall|a: PowerAction| name@ != #[trigger] a.label(),
            },
    {
        if same(name, "shutdown") {
            Some(PowerAction::Shutdown)
        } else if same(name, "reboot") {
            Some(PowerAction::Reboot)
        } else if same(name, "suspend") {
            Some(PowerAction::Suspend)
        } else {
            None
        }
    }

    /// The command, with `sudo -n` in front so that it fails at once rather
    /// than wait for a password that nobody can type.
    pub fn command(self) -> (r: &'static str)
        ensures
            r@ == self.line(),
            self is Shutdown ==> r@ == "sudo -n shutdown -h now"@,
            self is Reboot ==> r@ == "sudo -n reboot"@,
            self is Suspend ==> r@ == "sudo -n systemctl suspend"@,
    {
        match self {
            PowerAction::Shutdown => "sudo -n shutdown -h now",
            PowerAction::Reboot => "sudo -n reboot",
            PowerAction::Suspend => "sudo -n systemctl suspend",
        }
    }
}

/// No power command ever asks for a password.
pub proof fn power_commands_never_prompt(action: PowerAction)
    ensures
        crate::text::begins(action.line(), "sudo -n "@),
{
    reveal_strlit("sudo -n ");
    reveal_strlit("sudo -n shutdown -h now");
    reveal_strlit("sudo -n reboot");
    reveal_strlit("sudo -n systemctl suspend");
    assert(action.line().subrange(0, 8) =~= "sudo -n "@);
}

/// What `ssh` says when the connection drops under a running command.
pub open spec fn drop_signs() -> Seq<Seq<char>> {
    seq![
        "closed by remote host"@,
        "connection to"@,
        "connection reset"@,
        "connection closed"@,
        "broken pipe"@,
        "remote host"@,
    ]
}

/// What `ssh` says when it gave up before anything ran: the host did not answer,
/// refused the connection, or is not the one that is known.
pub open spec fn failure_signs() -> Seq<Seq<char>> {
    seq!["timed out"@, "connection refused"@, "verification failed"@]
}

/// Does the message hold one of these, whatever the case of its letters?
pub open spec fn says_any(message: Seq<char>, signs: Seq<Seq<char>>) -> bool {
    exists|i: int| 0 <= i < signs.len() && holds(ascii_lower(message), #[trigger] signs[i])
}

/// Does the message say that the connection dropped under a running command?
pub open spec fn says_dropped(message: Seq<char>) -> bool {
    says_any(message, drop_signs()) && !says_any(message, failure_signs())
}

/// Did the connection drop under a running command, as opposed to a failure
/// before it ran? A host that goes down drops the connection before it can
/// reply. A timeout or a refused connection is different: nothing ran.
pub fn is_disconnect(message: &str) -> (r: bool)
    ensures
        r == says_dropped(message@),
{
    let m = to_ascii_lower(message);
    let s = m.as_str();
    let failed = contains(s, "timed out") || contains(s, "connection refused") || contains(
        s,
        "verification failed",
    );
    let dropped = contains(s, "closed by remote host") || contains(s, "connection to") || contains(
        s,
        "connection reset",
    ) || contains(s, "connection closed") || contains(s, "broken pipe") || contains(
        s,
        "remote host",
    );
    proof {
        let d = drop_signs();
        assert(d[0] == "closed by remote host"@);
        assert(d[1] == "connection to"@);
        assert(d[2] == "connection reset"@);
        assert(d[3] == "connection closed"@);
        assert(d[4] == "broken pipe"@);
        assert(d[5] == "remote host"@);
        assert(dropped == says_any(message@, d));
        let f = failure_signs();
        assert(f[0] == "timed out"@);
        assert(f[1] == "connection refused"@);
        assert(f[2] == "verification failed"@);
        assert(failed == says_any(message@, f));
    }
    dropped && !failed
}

/// What came of a power command. A connection that drops under it is how a host
/// going down looks, so that counts as done.
pub fn power(outcome: Result<String, ExecError>) -> (r: Result<(), ExecError>)
    ensures
        r is Ok <==> match outcome {
            Ok(_) => true,
            Err(ExecError::Failed(m)) => says_dropped(m@),
            Err(_) => false,
        },
        r matches Err(e) ==> outcome == Err::<String, ExecError>(e),
{
    match outcome {
        Ok(_) => Ok(()),
        Err(e) => {
            let dropped = match &e {
                ExecError::Failed(m) => is_disconnect(m.as_str()),
                _ => false,
            };
            if dropped {
                Ok(())
            } else {
                Err(e)
            }
        },
    }
}

// ---------------------------------------------------------------------------
// Laws of calls, outcomes and power
// ---------------------------------------------------------------------------

/// A call of `ssh` ends in the user and the host, and then the command as it was
/// given. The port stands behind `-p` and is 22 where none is set; an identity
/// file stands behind `-i`, and then no other identity is tried. Nothing is ever
/// asked of a user who is not there.
pub proof fn a_call_names_host_port_and_command(t: SshTarget, command: Seq<char>)
    ensures
        ({
            let c = t.call(command);
            let n = c.len() as int;
            &&& c[n - 1] == command
            &&& c[n - 2] == t.user@ + "@"@ + t.ip@
            &&& c[0] == "-o"@ && c[1] == "BatchMode=yes"@
            &&& c[2] == "-o"@ && c[3] == "StrictHostKeyChecking=accept-new"@
            &&& c[4] == "-o"@ && c[5] == "ConnectTimeout=5"@
            &&& c[6] == "-o"@ && c[7] == "ServerAliveInterval=10"@
            &&& c[8] == "-o"@ && c[9] == "ServerAliveCountMax=2"@
            &&& c[10] == "-p"@
            &&& t.port != 0 ==> parse_unsigned(c[11], u16::MAX as nat) == Some(t.port as nat)
            &&& t.port == 0 ==> parse_unsigned(c[11], u16::MAX as nat) == Some(22nat)
            &&& t.key is None ==> n == 14
            &&& t.key is Some ==> n == 18 && c[12] == "-i"@ && c[13] == t.key->0@ && c[14] == "-o"@
                && c[15] == "IdentitiesOnly=yes"@
        }),
{
    decimal_reads_back(port_used(t.port) as nat, u16::MAX as nat);
}

/// A target is refused where its host or its user is blank, and says which.
pub proof fn a_target_needs_a_host_and_a_user(t: SshTarget)
    ensures
        t.refusal() is None <==> !is_blank(t.ip@) && !is_blank(t.user@),
        is_blank(t.ip@) ==> t.refusal() == Some("no host configured"@),
        !is_blank(t.ip@) && is_blank(t.user@) ==> t.refusal() == Some("no SSH user configured"@),
{
}

/// A script is sent as its base64 text, between `echo` and what decodes and runs
/// it.
pub proof fn a_script_is_decoded_and_run(script: Seq<char>)
    ensures
        begins(script_text(script), "echo "@ + base64_text(encode_utf8(script))),
        script_text(script).skip(5 + base64_text(encode_utf8(script)).len() as int)
            == " | base64 -d | sh"@,
{
    reveal_strlit("echo ");
    reveal_strlit(" | base64 -d | sh");
    let b = base64_text(encode_utf8(script));
    assert(script_text(script).subrange(0, 5 + b.len() as int) =~= "echo "@ + b);
}

/// A command that succeeded is worth its trimmed output. One that failed is worth
/// the beginning of what it complained about, as much as there is room for, and
/// its exit status where it did not complain.
pub proof fn an_end_is_worth_its_output_or_its_complaint(
    success: bool,
    status: Seq<char>,
    stdout: Seq<char>,
    stderr: Seq<char>,
    lead: Seq<char>,
    room: int,
)
    requires
        room >= 0,
    ensures
        match settled(success, status, stdout, stderr, lead, room) {
            Ok(t) => success && t == trimmed(stdout),
            Err(m) => {
                &&& !success
                &&& is_blank(stderr) ==> m == lead + status
                &&& !is_blank(stderr) ==> begins(trimmed(stderr), m) && m.len() <= room && (m.len()
                    == room || m == trimmed(stderr))
            },
        },
{
    clipping_keeps_the_beginning(trimmed(stderr), room);
}

/// The connection dropped where the message says so in one of these ways, in
/// whatever case, unless it says that nothing ran: that the host did not answer,
/// refused the connection, or is not the one that is known.
pub proof fn a_dropped_connection_is_told_from_a_refused_one(message: Seq<char>)
    ensures
        ({
            let m = ascii_lower(message);
            &&& holds(m, "timed out"@) ==> !says_dropped(message)
            &&& holds(m, "connection refused"@) ==> !says_dropped(message)
            &&& holds(m, "verification failed"@) ==> !says_dropped(message)
            &&& !holds(m, "timed out"@) && !holds(m, "connection refused"@) && !holds(
                m,
                "verification failed"@,
            ) ==> (says_dropped(message) <==> holds(m, "closed by remote host"@) || holds(
                m,
                "connection to"@,
            ) || holds(m, "connection reset"@) || holds(m, "connection closed"@) || holds(
                m,
                "broken pipe"@,
            ) || holds(m, "remote host"@))
        }),
{
    let a = drop_signs();
    assert(a[0] == "closed by remote host"@ && a[1] == "connection to"@);
    assert(a[2] == "connection reset"@ && a[3] == "connection closed"@);
    assert(a[4] == "broken pipe"@ && a[5] == "remote host"@);
    let b = failure_signs();
    assert(b[0] == "timed out"@ && b[1] == "connection refused"@);
    assert(b[2] == "verification failed"@);
}

/// A text that lacks a character does not hold another text with that character.
proof fn lemma_lacks(s: Seq<char>, p: Seq<char>, k: int)
    requires
        0 <= k < p.len(),
        find(s, p[k]) == s.len(),
    ensures
        !holds(s, p),
{
    lemma_find(s, p[k]);
    assert forall|i: int| !(#[trigger] holds_at(s, p, i)) by {
        if holds_at(s, p, i) {
            assert(s.subrange(i, i + p.len())[k] == s[i + k]);
        }
    }
}

/// A text that has another one at a place holds it.
proof fn lemma_held(s: Seq<char>, p: Seq<char>, i: int)
    requires
        0 <= i <= s.len() - p.len(),
        s.subrange(i, i + p.len()) =~= p,
    ensures
        holds(s, p),
{
    assert(holds_at(s, p, i));
}

/// Letters that the command for shutting down lacks.
proof fn lemma_shutdown_lacks()
    ensures
        find("sudo -n shutdown -h now"@, 'b') == "sudo -n shutdown -h now"@.len(),
        find("sudo -n shutdown -h now"@, 'p') == "sudo -n shutdown -h now"@.len(),
{
    reveal_strlit("sudo -n shutdown -h now");
    reveal_with_fuel(find, 24);
}

/// Letters that the command for rebooting lacks.
proof fn lemma_reboot_lacks()
    ensures
        find("sudo -n reboot"@, 'w') == "sudo -n reboot"@.len(),
        find("sudo -n reboot"@, 'p') == "sudo -n reboot"@.len(),
{
    reveal_strlit("sudo -n reboot");
    reveal_with_fuel(find, 15);
}

/// Letters that the command for suspending lacks.
proof fn lemma_suspend_lacks()
    ensures
        find("sudo -n systemctl suspend"@, 'w') == "sudo -n systemctl suspend"@.len(),
        find("sudo -n systemctl suspend"@, 'b') == "sudo -n systemctl suspend"@.len(),
{
    reveal_strlit("sudo -n systemctl suspend");
    reveal_with_fuel(find, 26);
}

/// Every power command is the one that its action names: it holds the name of
/// the action, and the name of no other; and shutting down and rebooting are
/// called by their names right behind the `sudo -n`.
pub proof fn a_power_command_names_its_action(action: PowerAction, other: PowerAction)
    ensures
        holds(action.line(), other.label()) <==> action == other,
        action !is Suspend ==> begins(action.line(), "sudo -n "@ + action.label()),
        action is Suspend ==> begins(action.line(), "sudo -n systemctl "@ + action.label()),
        PowerAction::Shutdown.label() == "shutdown"@,
        PowerAction::Reboot.label() == "reboot"@,
        PowerAction::Suspend.label() == "suspend"@,
{
    reveal_strlit("sudo -n ");
    reveal_strlit("sudo -n systemctl ");
    reveal_strlit("shutdown");
    reveal_strlit("reboot");
    reveal_strlit("suspend");
    reveal_strlit("sudo -n shutdown -h now");
    reveal_strlit("sudo -n reboot");
    reveal_strlit("sudo -n systemctl suspend");
    lemma_shutdown_lacks();
    lemma_reboot_lacks();
    lemma_suspend_lacks();
    let s = action.line();
    let p = other.label();
    match action {
        PowerAction::Shutdown => {
            assert(s.subrange(0, 16) =~= "sudo -n "@ + action.label());
            match other {
                PowerAction::Shutdown => lemma_held(s, p, 8),
                PowerAction::Reboot => {
                    assert(p[2] == 'b');
                    lemma_lacks(s, p, 2);
                },
                PowerAction::Suspend => {
                    assert(p[3] == 'p');
                    lemma_lacks(s, p, 3);
                },
            }
        },
        PowerAction::Reboot => {
            assert(s.subrange(0, 14) =~= "sudo -n "@ + action.label());
            match other {
                PowerAction::Shutdown => {
                    assert(p[6] == 'w');
                    lemma_lacks(s, p, 6);
                },
                PowerAction::Reboot => lemma_held(s, p, 8),
                PowerAction::Suspend => {
                    assert(p[3] == 'p');
                    lemma_lacks(s, p, 3);
                },
            }
        },
        PowerAction::Suspend => {
            assert(s.subrange(0, 25) =~= "sudo -n systemctl "@ + action.label());
            match other {
                PowerAction::Shutdown => {
                    assert(p[6] == 'w');
                    lemma_lacks(s, p, 6);
                },
                PowerAction::Reboot => {
                    assert(p[2] == 'b');
                    lemma_lacks(s, p, 2);
                },
                PowerAction::Suspend => lemma_held(s, p, 18),
            }
        },
    }
}

} // verus!
