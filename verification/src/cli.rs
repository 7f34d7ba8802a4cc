//! The command line.

use vstd::prelude::*;

use crate::numbers::{decimal, decimal_reads_back, parse_unsigned, parse_up_to};
use crate::text::{chars_of, concat2, same, trim_end_of, trim_end_set, views};

verus! {

/// What `--help` prints.
pub const USAGE: &'static str = "\
MinDash - your homelab, under control.

USAGE:
    mindash [OPTIONS]

OPTIONS:
    --port <PORT>          Port to listen on                    [default: 5050]
    --data-dir <PATH>      Where config.json and secrets live   [default: /opt/mindash]
    --static-dir <PATH>    Where the web bundle is served from  [default: static]

    --set-password         Read a password from stdin and store a hash, then exit.
                           Use this before exposing MinDash to a network.
    --print-config-dir     Print the resolved data directory and exit.
    -h, --help             Print this help and exit.
    -V, --version          Print the version and exit.

ENVIRONMENT:
    RUST_LOG               Log filter, e.g. RUST_LOG=mindash=debug
    MINDASH_SSH_KEY        Identity file to use for every SSH connection. Useful
                           for a throwaway key in testing; normally you would rely
                           on your own ~/.ssh/config instead.
";

/// What the program is asked to do.
#[derive(Debug, Clone, Copy, PartialEq, Eq, Structural)]
pub enum Action {
    Serve,
    Help,
    Version,
    SetPassword,
    PrintConfigDir,
}

/// The parsed command line.
#[derive(Debug, Clone)]
pub struct Args {
    pub port: u16,
    pub data_dir: String,
    pub static_dir: String,
    pub action: Action,
}

/// The meaning of [`Args`].
#[verifier::ext_equal]
pub struct ArgsView {
    pub port: u16,
    pub data_dir: Seq<char>,
    pub static_dir: Seq<char>,
    pub action: Action,
}

impl View for Args {
    type V = ArgsView;

    open spec fn view(&self) -> ArgsView {
        ArgsView {
            port: self.port,
            data_dir: self.data_dir@,
            static_dir: self.static_dir@,
            action: self.action,
        }
    }
}

/// What holds where nothing is asked for.
pub open spec fn default_args() -> ArgsView {
    ArgsView {
        port: 5050,
        data_dir: "/opt/mindash"@,
        static_dir: "static"@,
        action: Action::Serve,
    }
}

/// What a lone flag asks for.
pub open spec fn flag_action(flag: Seq<char>) -> Option<Action> {
    if flag == "--set-password"@ {
        Some(Action::SetPassword)
    } else if flag == "--print-config-dir"@ {
        Some(Action::PrintConfigDir)
    } else if flag == "--help"@ || flag == "-h"@ {
        Some(Action::Help)
    } else if flag == "--version"@ || flag == "-V"@ {
        Some(Action::Version)
    } else {
        None
    }
}

/// What the arguments ask for, on top of what was asked for before them. A flag
/// that needs a value and gets none is an error, and so is an unknown flag; what
/// comes later wins.
pub open spec fn read_args(args: Seq<Seq<char>>, before: ArgsView) -> Result<ArgsView, Seq<char>>
    decreases args.len(),
{
    if args.len() == 0 {
        Ok(before)
    } else {
        let flag = args[0];
        if flag == "--port"@ {
            if args.len() == 1 {
                Err("--port needs a number"@)
            } else {
                match parse_unsigned(args[1], 65535) {
                    Some(n) => read_args(
                        args.skip(2),
                        ArgsView { port: n as u16, ..before },
                    ),
                    None => Err("--port: not a port number: "@ + args[1]),
                }
            }
        } else if flag == "--data-dir"@ {
            if args.len() == 1 {
                Err("--data-dir needs a path"@)
            } else {
                read_args(args.skip(2), ArgsView { data_dir: args[1], ..before })
            }
        } else if flag == "--static-dir"@ {
            if args.len() == 1 {
                Err("--static-dir needs a path"@)
            } else {
                read_args(args.skip(2), ArgsView { static_dir: args[1], ..before })
            }
        } else {
            match flag_action(flag) {
                Some(action) => read_args(args.skip(1), ArgsView { action, ..before }),
                None => Err("unknown argument: "@ + flag),
            }
        }
    }
}

/// What a lone flag asks for.
fn action_of(flag: &str) -> (r: Option<Action>)
    ensures
        r == flag_action(flag@),
{
    if same(flag, "--set-password") {
        Some(Action::SetPassword)
    } else if same(flag, "--print-config-dir") {
        Some(Action::PrintConfigDir)
    } else if same(flag, "--help") || same(flag, "-h") {
        Some(Action::Help)
    } else if same(flag, "--version") || same(flag, "-V") {
        Some(Action::Version)
    } else {
        None
    }
}

/// Parses the arguments that follow the name of the program.
pub fn parse_args(args: &Vec<String>) -> (r: Result<Args, String>)
    ensures
        match (r, read_args(views(args@), default_args())) {
            (Ok(a), Ok(v)) => a@ == v,
            (Err(e), Err(v)) => e@ == v,
            _ => false,
        },
{
    let ghost av = views(args@);
    let mut parsed = Args {
        port: 5050,
        data_dir: String::from_str("/opt/mindash"),
        static_dir: String::from_str("static"),
        action: Action::Serve,
    };
    let n: usize = args.len();
    let mut i: usize = 0;
    assert(av.skip(0) =~= av);
    assert(parsed@ =~= default_args());
    while i < n
        invariant
            i <= n,
            n == args@.len(),
            av == views(args@),
            read_args(av, default_args()) == read_args(av.skip(i as int), parsed@),
        decreases n - i,
    {
        let ghost rest = av.skip(i as int);
        let ghost before = parsed@;
        let flag = args[i].as_str();
        assert(rest[0] == flag@);
        assert(n - i > 1 ==> rest[1] == args@[i + 1]@);
        assert(rest.skip(1) =~= av.skip(i + 1));
        assert(n - i > 1 ==> rest.skip(2) =~= av.skip(i + 2));
        if same(flag, "--port") {
            if n - i == 1 {
                return Err(String::from_str("--port needs a number"));
            }
            let value = args[i + 1].as_str();
            match parse_up_to(value, 65535) {
                Some(port) => {
                    parsed.port = port as u16;
                },
                None => {
                    return Err(concat2("--port: not a port number: ", value));
                },
            }
            assert(parsed@ =~= ArgsView { port: parsed.port, ..before });
            i = i + 2;
        } else if same(flag, "--data-dir") {
            if n - i == 1 {
                return Err(String::from_str("--data-dir needs a path"));
            }
            parsed.data_dir = args[i + 1].clone();
            assert(parsed@ =~= ArgsView { data_dir: rest[1], ..before });
            i = i + 2;
        } else if same(flag, "--static-dir") {
            if n - i == 1 {
                return Err(String::from_str("--static-dir needs a path"));
            }
            parsed.static_dir = args[i + 1].clone();
            assert(parsed@ =~= ArgsView { static_dir: rest[1], ..before });
            i = i + 2;
        } else {
            match action_of(flag) {
                Some(action) => {
                    parsed.action = action;
                    assert(parsed@ =~= ArgsView { action, ..before });
                },
                None => {
                    return Err(concat2("unknown argument: ", flag));
                },
            }
            i = i + 1;
        }
    }
    Ok(parsed)
}

/// Arguments are read in turn: what the first ones ask for is what the rest are
/// read on top of.
pub proof fn arguments_are_read_in_turn(
    first: Seq<Seq<char>>,
    rest: Seq<Seq<char>>,
    before: ArgsView,
)
    requires
        read_args(first, before) is Ok,
    ensures
        read_args(first + rest, before) == read_args(rest, read_args(first, before)->Ok_0),
    decreases first.len(),
{
    let all = first + rest;
    if first.len() == 0 {
        assert(all =~= rest);
    } else {
        let flag = first[0];
        assert(all[0] == flag);
        if flag == "--port"@ || flag == "--data-dir"@ || flag == "--static-dir"@ {
            assert(all[1] == first[1]);
            assert(all.skip(2) =~= first.skip(2) + rest);
            if flag == "--port"@ {
                let n = parse_unsigned(first[1], 65535)->0;
                arguments_are_read_in_turn(
                    first.skip(2),
                    rest,
                    ArgsView { port: n as u16, ..before },
                );
            } else if flag == "--data-dir"@ {
                arguments_are_read_in_turn(
                    first.skip(2),
                    rest,
                    ArgsView { data_dir: first[1], ..before },
                );
            } else {
                arguments_are_read_in_turn(
                    first.skip(2),
                    rest,
                    ArgsView { static_dir: first[1], ..before },
                );
            }
        } else {
            assert(all.skip(1) =~= first.skip(1) + rest);
            arguments_are_read_in_turn(
                first.skip(1),
                rest,
                ArgsView { action: flag_action(flag)->0, ..before },
            );
        }
    }
}

/// A flag that needs a value and gets none is an error, whatever was asked for
/// before it: nothing falls back to a default in silence.
pub proof fn a_dangling_flag_is_an_error(args: Seq<Seq<char>>, flag: Seq<char>)
    requires
        read_args(args, default_args()) is Ok,
        flag == "--port"@ || flag == "--data-dir"@ || flag == "--static-dir"@,
    ensures
        read_args(args.push(flag), default_args()) is Err,
{
    arguments_are_read_in_turn(args, seq![flag], default_args());
    assert(args + seq![flag] =~= args.push(flag));
}

/// The shortest password, in characters.
pub const SHORTEST_PASSWORD: usize = 8;

/// The password in what was typed: what stands before the line breaks at the end.
pub open spec fn typed_password(raw: Seq<char>) -> Seq<char> {
    trim_end_of(raw, seq!['\n', '\r'])
}

/// The password in what was typed, or why it is not taken.
pub fn accept_password(raw: &str) -> (r: Result<String, &'static str>)
    ensures
        match r {
            Ok(p) => p@ == typed_password(raw@) && p@.len() >= SHORTEST_PASSWORD,
            Err(e) => {
                ||| typed_password(raw@).len() == 0 && e@
                    == "no password on stdin. Try: printf 'secret' | mindash --set-password"@
                ||| 0 < typed_password(raw@).len() < SHORTEST_PASSWORD && e@
                    == "password must be at least 8 characters"@
            },
        },
        r is Ok <==> typed_password(raw@).len() >= 8,
{
    proof {
        reveal_strlit("\n\r");
        assert("\n\r"@ =~= seq!['\n', '\r']);
    }
    let password = trim_end_set(raw, "\n\r");
    let n: usize = chars_of(password.as_str()).len();
    if n == 0 {
        Err("no password on stdin. Try: printf 'secret' | mindash --set-password")
    } else if n < SHORTEST_PASSWORD {
        Err("password must be at least 8 characters")
    } else {
        Ok(password)
    }
}

// ---------------------------------------------------------------------------
// Laws of the command line
// ---------------------------------------------------------------------------

/// Without arguments the dashboard is served on port 5050, from the usual
/// directories.
pub proof fn without_arguments_the_dashboard_is_served()
    ensures
        read_args(seq![], default_args()) == Ok::<ArgsView, Seq<char>>(default_args()),
        default_args().port == 5050,
        default_args().data_dir == "/opt/mindash"@,
        default_args().static_dir == "static"@,
        default_args().action is Serve,
{
}

/// An option sets what it names to the value behind it, and nothing else; what
/// follows is read on top of that.
pub proof fn an_option_sets_what_it_names(
    port: u16,
    path: Seq<char>,
    rest: Seq<Seq<char>>,
    before: ArgsView,
)
    ensures
        read_args(seq!["--port"@, decimal(port as nat)] + rest, before) == read_args(
            rest,
            ArgsView { port, ..before },
        ),
        read_args(seq!["--data-dir"@, path] + rest, before) == read_args(
            rest,
            ArgsView { data_dir: path, ..before },
        ),
        read_args(seq!["--static-dir"@, path] + rest, before) == read_args(
            rest,
            ArgsView { static_dir: path, ..before },
        ),
{
    broadcast use crate::json::reading_behind_setting;

    reveal_strlit("--port");
    reveal_strlit("--data-dir");
    reveal_strlit("--static-dir");
    assert("--port"@.len() == 6 && "--data-dir"@.len() == 10 && "--static-dir"@.len() == 12);
    decimal_reads_back(port as nat, 65535);
    let a = seq!["--port"@, decimal(port as nat)] + rest;
    assert(a[0] == "--port"@ && a[1] == decimal(port as nat));
    assert(a.skip(2) =~= rest);
    let b = seq!["--data-dir"@, path] + rest;
    assert(b[0] == "--data-dir"@ && b[1] == path);
    assert(b.skip(2) =~= rest);
    let c = seq!["--static-dir"@, path] + rest;
    assert(c[0] == "--static-dir"@ && c[1] == path);
    assert(c.skip(2) =~= rest);
}

/// A flag asks for its action and for nothing else; what follows is read on top
/// of that.
pub proof fn a_flag_asks_for_its_action(
    flag: Seq<char>,
    action: Action,
    rest: Seq<Seq<char>>,
    before: ArgsView,
)
    requires
        flag == "--set-password"@ && action is SetPassword || flag == "--print-config-dir"@
            && action is PrintConfigDir || (flag == "--help"@ || flag == "-h"@) && action is Help
            || (flag == "--version"@ || flag == "-V"@) && action is Version,
    ensures
        read_args(seq![flag] + rest, before) == read_args(rest, ArgsView { action, ..before }),
{
    broadcast use crate::json::reading_behind_setting;

    reveal_strlit("--set-password");
    reveal_strlit("--print-config-dir");
    reveal_strlit("--help");
    reveal_strlit("-h");
    reveal_strlit("--version");
    reveal_strlit("-V");
    reveal_strlit("--port");
    reveal_strlit("--data-dir");
    reveal_strlit("--static-dir");
    assert("--set-password"@.len() == 14 && "--print-config-dir"@.len() == 18);
    assert("--help"@.len() == 6 && "-h"@.len() == 2 && "--version"@.len() == 9);
    assert("-V"@.len() == 2 && "--port"@.len() == 6 && "--data-dir"@.len() == 10);
    assert("--static-dir"@.len() == 12);
    assert("--help"@[2] == 'h');
    assert("--port"@[2] == 'p');
    assert("-h"@[1] == 'h');
    assert("-V"@[1] == 'V');
    let a = seq![flag] + rest;
    assert(a[0] == flag);
    assert(a.skip(1) =~= rest);
}

/// An argument that is none of these is refused by name, and so is a port that is
/// no number up to 65535; an option without its value says what it needs.
pub proof fn what_is_not_understood_is_refused(
    word: Seq<char>,
    rest: Seq<Seq<char>>,
    before: ArgsView,
)
    ensures
        word != "--port"@ && word != "--data-dir"@ && word != "--static-dir"@ && word
            != "--set-password"@ && word != "--print-config-dir"@ && word != "--help"@ && word
            != "-h"@ && word != "--version"@ && word != "-V"@ ==> read_args(
            seq![word] + rest,
            before,
        ) == Err::<ArgsView, Seq<char>>("unknown argument: "@ + word),
        parse_unsigned(word, 65535) is None ==> read_args(seq!["--port"@, word] + rest, before)
            == Err::<ArgsView, Seq<char>>("--port: not a port number: "@ + word),
        read_args(seq!["--port"@], before) == Err::<ArgsView, Seq<char>>("--port needs a number"@),
        read_args(seq!["--data-dir"@], before) == Err::<ArgsView, Seq<char>>(
            "--data-dir needs a path"@,
        ),
        read_args(seq!["--static-dir"@], before) == Err::<ArgsView, Seq<char>>(
            "--static-dir needs a path"@,
        ),
{
    assert("--port"@.len() == 6 && "--data-dir"@.len() == 10 && "--static-dir"@.len() == 12) by {
        reveal_strlit("--port");
        reveal_strlit("--data-dir");
        reveal_strlit("--static-dir");
    }
    assert((seq![word] + rest)[0] == word);
    let p = seq!["--port"@, word] + rest;
    assert(p[0] == "--port"@ && p[1] == word);
}

/// The password is what was typed, without the line breaks at its end and without
/// losing anything else.
pub proof fn the_password_is_what_stands_before_the_line_break(p: Seq<char>)
    requires
        p.len() > 0 ==> p.last() != '\n' && p.last() != '\r',
    ensures
        typed_password(p) == p,
        typed_password(p + seq!['\n']) == p,
        typed_password(p + seq!['\r', '\n']) == p,
{
    let set = seq!['\n', '\r'];
    assert(set[0] == '\n' && set[1] == '\r');
    assert(set.contains('\n') && set.contains('\r'));
    assert forall|c: char| set.contains(c) implies c == '\n' || c == '\r' by {}
    assert(trim_end_of(p, set) == p);
    assert((p + seq!['\n']).drop_last() =~= p);
    assert(trim_end_of(p + seq!['\n'], set) == p);
    let q = p + seq!['\r'];
    assert(q.drop_last() =~= p);
    assert(trim_end_of(q, set) == p);
    assert((p + seq!['\r', '\n']).drop_last() =~= q);
    assert(trim_end_of(p + seq!['\r', '\n'], set) == p);
}

/// The parsed command line means what it holds.
pub proof fn arguments_mean_what_they_hold(a: Args)
    ensures
        a@.port == a.port,
        a@.data_dir == a.data_dir@,
        a@.static_dir == a.static_dir@,
        a@.action == a.action,
{
}

} // verus!
