//! Command-line arguments of the client.

use vstd::prelude::*;

use crate::text::{push_str, str_equals};

verus! {

broadcast use vstd::string::group_string_axioms;

/// What the command line asks for.
#[derive(Debug)]
pub enum CliCommand {
    /// Start the client, with an optional config file path and account.
    Run { config_path: Option<String>, account: Option<String> },
    /// Print the usage text and exit successfully.
    Help,
    /// Print the message and exit with status 1.
    Fail(String),
}

/// The meaning of a [`CliCommand`], its texts taken as characters.
pub enum CliSpec {
    Run { config_path: Option<Seq<char>>, account: Option<Seq<char>> },
    Help,
    Fail(Seq<char>),
}

pub open spec fn opt_chars(o: Option<String>) -> Option<Seq<char>> {
    match o {
        Some(s) => Some(s@),
        None => None,
    }
}

impl View for CliCommand {
    type V = CliSpec;

    open spec fn view(&self) -> CliSpec {
        match self {
            CliCommand::Run { config_path, account } => CliSpec::Run {
                config_path: opt_chars(*config_path),
                account: opt_chars(*account),
            },
            CliCommand::Help => CliSpec::Help,
            CliCommand::Fail(m) => CliSpec::Fail(m@),
        }
    }
}

/// Usage text printed for `--help`.
pub const USAGE: &'static str = "signal-tui - Terminal Signal client

Usage: signal-tui [OPTIONS]

Options:
  -a, --account <NUMBER>  Phone number (E.164 format)
  -c, --config <PATH>     Config file path
      --help              Show this help";

/// The arguments from position `i` on, read left to right: `-c`/`--config`
/// and `-a`/`--account` take the next argument as their value (the last
/// one given wins) and fail without one; `--help` stops the reading;
/// anything else fails.
pub open spec fn spec_parse_args_from(
    args: Seq<Seq<char>>,
    i: int,
    config_path: Option<Seq<char>>,
    account: Option<Seq<char>>,
) -> CliSpec
    decreases args.len() - i,
{
    if i < 1 || i >= args.len() {
        CliSpec::Run { config_path, account }
    } else {
        let a = args[i];
        if a == "-c"@ || a == "--config"@ {
            if i + 1 < args.len() {
                spec_parse_args_from(args, i + 2, Some(args[i + 1]), account)
            } else {
                CliSpec::Fail("--config requires a path argument"@)
            }
        } else if a == "-a"@ || a == "--account"@ {
            if i + 1 < args.len() {
                spec_parse_args_from(args, i + 2, config_path, Some(args[i + 1]))
            } else {
                CliSpec::Fail("--account requires a phone number"@)
            }
        } else if a == "--help"@ {
            CliSpec::Help
        } else {
            CliSpec::Fail("Unknown argument: "@ + a)
        }
    }
}

/// The characters of each argument.
pub open spec fn arg_views(args: Seq<String>) -> Seq<Seq<char>> {
    args.map_values(|a: String| a@)
}

/// What the command line `args` (program name first) asks for.
pub open spec fn spec_parse_args(args: Seq<String>) -> CliSpec {
    spec_parse_args_from(arg_views(args), 1, None, None)
}

/// Parse the command line (program name first).
pub fn parse_args(args: &Vec<String>) -> (res: CliCommand)
    ensures
        res@ == spec_parse_args(args@),
{
    let ghost av = arg_views(args@);
    let mut config_path: Option<String> = None;
    let mut account: Option<String> = None;
    let mut i: usize = 1;
    while i < args.len()
        invariant
            av == arg_views(args@),
            av.len() == args@.len(),
            1 <= i,
            spec_parse_args_from(av, i as int, opt_chars(config_path), opt_chars(account))
                == spec_parse_args(args@),
        decreases args.len() - i,
    {
        let a = args[i].as_str();
        assert(a@ == av[i as int]);
        if str_equals(a, "-c") || str_equals(a, "--config") {
            if i + 1 < args.len() {
                config_path = Some(args[i + 1].clone());
                assert(opt_chars(config_path) == Some(av[i + 1]));
                i += 2;
            } else {
                let mut m = String::new();
                push_str(&mut m, "--config requires a path argument");
                return CliCommand::Fail(m);
            }
        } else if str_equals(a, "-a") || str_equals(a, "--account") {
            if i + 1 < args.len() {
                account = Some(args[i + 1].clone());
                assert(opt_chars(account) == Some(av[i + 1]));
                i += 2;
            } else {
                let mut m = String::new();
                push_str(&mut m, "--account requires a phone number");
                return CliCommand::Fail(m);
            }
        } else if str_equals(a, "--help") {
            return CliCommand::Help;
        } else {
            let mut m = String::new();
            push_str(&mut m, "Unknown argument: ");
            push_str(&mut m, a);
            return CliCommand::Fail(m);
        }
    }
    CliCommand::Run { config_path, account }
}

/// Reading from position `j` looks only at the arguments from `j` on.
proof fn lemma_parse_reads_from(
    a1: Seq<Seq<char>>,
    a2: Seq<Seq<char>>,
    j: int,
    config_path: Option<Seq<char>>,
    account: Option<Seq<char>>,
)
    requires
        1 <= j,
        a1.len() == a2.len(),
        forall|k: int| j <= k < a1.len() ==> a1[k] == a2[k],
    ensures
        spec_parse_args_from(a1, j, config_path, account) == spec_parse_args_from(
            a2,
            j,
            config_path,
            account,
        ),
    decreases a1.len() - j,
{
    if j < a1.len() {
        let a = a1[j];
        if a == "-c"@ || a == "--config"@ {
            if j + 1 < a1.len() {
                lemma_parse_reads_from(a1, a2, j + 2, Some(a1[j + 1]), account);
            }
        } else if a == "-a"@ || a == "--account"@ {
            if j + 1 < a1.len() {
                lemma_parse_reads_from(a1, a2, j + 2, config_path, Some(a1[j + 1]));
            }
        }
    }
}

/// Short and long flags are the same option, and an option takes the
/// argument after it as its value, whatever that value and whatever
/// follows: `-a v` sets the account to `v` like `--account v`, `-c p` sets
/// the config path to `p` like `--config p`, and `prog -a v` alone (or
/// `prog --config p` alone) runs with just that value set.
pub proof fn lemma_flags_take_their_value(
    prog: Seq<char>,
    v: Seq<char>,
    rest: Seq<Seq<char>>,
)
    ensures
        spec_parse_args_from(seq![prog, "-a"@, v] + rest, 1, None, None) == spec_parse_args_from(
            seq![prog, "--account"@, v] + rest,
            1,
            None,
            None,
        ),
        spec_parse_args_from(seq![prog, "-c"@, v] + rest, 1, None, None) == spec_parse_args_from(
            seq![prog, "--config"@, v] + rest,
            1,
            None,
            None,
        ),
        spec_parse_args_from(seq![prog, "-a"@, v], 1, None, None) == (CliSpec::Run {
            config_path: None,
            account: Some(v),
        }),
        spec_parse_args_from(seq![prog, "--account"@, v], 1, None, None) == (CliSpec::Run {
            config_path: None,
            account: Some(v),
        }),
        spec_parse_args_from(seq![prog, "-c"@, v], 1, None, None) == (CliSpec::Run {
            config_path: Some(v),
            account: None,
        }),
        spec_parse_args_from(seq![prog, "--config"@, v], 1, None, None) == (CliSpec::Run {
            config_path: Some(v),
            account: None,
        }),
{
    reveal_strlit("-a");
    reveal_strlit("--account");
    reveal_strlit("-c");
    reveal_strlit("--config");
    reveal_strlit("--help");
    let sa = seq![prog, "-a"@, v] + rest;
    let la = seq![prog, "--account"@, v] + rest;
    let sc = seq![prog, "-c"@, v] + rest;
    let lc = seq![prog, "--config"@, v] + rest;
    assert(sa[1] == "-a"@ && la[1] == "--account"@ && sa[2] == v && la[2] == v);
    assert(sc[1] == "-c"@ && lc[1] == "--config"@ && sc[2] == v && lc[2] == v);
    assert("-a"@[1] != "-c"@[1]);
    assert("-a"@.len() != "--config"@.len());
    assert("--account"@.len() != "-c"@.len());
    assert("--account"@[2] != "--config"@[2]);
    assert("-a"@ != "-c"@ && "-a"@ != "--config"@);
    assert("--account"@ != "-c"@ && "--account"@ != "--config"@);
    lemma_parse_reads_from(sa, la, 3, None, Some(v));
    lemma_parse_reads_from(sc, lc, 3, Some(v), None);
    let ta = seq![prog, "-a"@, v];
    let tla = seq![prog, "--account"@, v];
    let tc = seq![prog, "-c"@, v];
    let tlc = seq![prog, "--config"@, v];
    assert(ta[1] == "-a"@ && tla[1] == "--account"@ && tc[1] == "-c"@ && tlc[1] == "--config"@);
    assert(ta[2] == v && tla[2] == v && tc[2] == v && tlc[2] == v);
    assert(spec_parse_args_from(ta, 3, None, Some(v)) == (CliSpec::Run { config_path: None, account: Some(v) }));
    assert(spec_parse_args_from(tla, 3, None, Some(v)) == (CliSpec::Run { config_path: None, account: Some(v) }));
    assert(spec_parse_args_from(tc, 3, Some(v), None) == (CliSpec::Run { config_path: Some(v), account: None }));
    assert(spec_parse_args_from(tlc, 3, Some(v), None) == (CliSpec::Run { config_path: Some(v), account: None }));
}

/// `--help` wins over whatever follows it, an argument that is no option
/// fails naming it, an option at the end fails for want of its value, and
/// no arguments run with nothing set.
pub proof fn lemma_help_unknown_and_missing(prog: Seq<char>, x: Seq<char>, rest: Seq<Seq<char>>)
    requires
        x != "-c"@ && x != "--config"@ && x != "-a"@ && x != "--account"@ && x != "--help"@,
    ensures
        spec_parse_args_from(seq![prog, "--help"@] + rest, 1, None, None) == CliSpec::Help,
        spec_parse_args_from(seq![prog, x] + rest, 1, None, None) == CliSpec::Fail(
            "Unknown argument: "@ + x,
        ),
        spec_parse_args_from(seq![prog, "-a"@], 1, None, None) == CliSpec::Fail(
            "--account requires a phone number"@,
        ),
        spec_parse_args_from(seq![prog, "-c"@], 1, None, None) == CliSpec::Fail(
            "--config requires a path argument"@,
        ),
        spec_parse_args_from(seq![prog], 1, None, None) == (CliSpec::Run {
            config_path: None,
            account: None,
        }),
{
    reveal_strlit("-a");
    reveal_strlit("--account");
    reveal_strlit("-c");
    reveal_strlit("--config");
    reveal_strlit("--help");
    let h = seq![prog, "--help"@] + rest;
    let u = seq![prog, x] + rest;
    assert(h[1] == "--help"@);
    assert(u[1] == x);
    assert("--help"@.len() != "-c"@.len() && "--help"@.len() != "--config"@.len());
    assert("--help"@.len() != "-a"@.len() && "--help"@[2] != "--account"@[2]);
    assert("-a"@[1] != "-c"@[1] && "-a"@.len() != "--config"@.len());
}

} // verus!
