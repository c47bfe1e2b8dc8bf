//! The command line: which command, and which of its options.

use crate::text::{opt_view, same, texts_of};
use vstd::prelude::*;

verus! {

broadcast use vstd::string::group_string_axioms;

/// What the program is asked to do.
#[derive(Clone, Copy, Debug, PartialEq, Eq, Structural)]
pub enum Command {
    Serve,
    Setup,
    Doctor,
    /// Nothing that is known: how to use it is shown.
    Usage,
}

/// A command line.
pub struct Invocation {
    pub command: Command,
    pub config: Option<String>,
    pub insecure_local: bool,
    pub password_stdin: bool,
    pub qr_png: Option<String>,
}

/// The argument after the first one that is `name`, if there is one.
pub open spec fn value_of(args: Seq<Seq<char>>, name: Seq<char>) -> Option<Seq<char>>
    decreases args.len(),
{
    if args.len() == 0 {
        None
    } else if args[0] == name {
        if args.len() > 1 {
            Some(args[1])
        } else {
            None
        }
    } else {
        value_of(args.drop_first(), name)
    }
}

/// The command that the first argument names.
pub open spec fn command_of(args: Seq<Seq<char>>) -> Command {
    if args.len() == 0 {
        Command::Usage
    } else if args[0] == "serve"@ {
        Command::Serve
    } else if args[0] == "setup"@ {
        Command::Setup
    } else if args[0] == "doctor"@ {
        Command::Doctor
    } else {
        Command::Usage
    }
}

fn flag(args: &Vec<String>, name: &str) -> (b: bool)
    ensures
        b == texts_of(args@).contains(name@),
{
    let mut i: usize = 0;
    while i < args.len()
        invariant
            i <= args@.len(),
            forall|j: int| 0 <= j < i ==> (#[trigger] texts_of(args@)[j]) != name@,
        decreases args@.len() - i,
    {
        assert(texts_of(args@)[i as int] == args@[i as int]@);
        if same(&args[i], name) {
            return true;
        }
        i += 1;
    }
    false
}

fn value(args: &Vec<String>, name: &str) -> (v: Option<String>)
    ensures
        opt_view(v) == value_of(texts_of(args@), name@),
{
    let ghost all = texts_of(args@);
    let mut i: usize = 0;
    assert(all.skip(0) =~= all);
    while i < args.len()
        invariant
            i <= args@.len(),
            all == texts_of(args@),
            value_of(all.skip(i as int), name@) == value_of(all, name@),
        decreases args@.len() - i,
    {
        assert(all.skip(i as int)[0] == args@[i as int]@);
        assert(all.skip(i as int).drop_first() =~= all.skip(i + 1));
        if same(&args[i], name) {
            if i + 1 < args.len() {
                assert(all.skip(i as int)[1] == args@[i + 1]@);
                return Some(args[i + 1].clone());
            }
            return None;
        }
        i += 1;
    }
    None
}

/// Reads the arguments that follow the program's name. An option is found wherever it stands.
pub fn parse_args(args: &Vec<String>) -> (inv: Invocation)
    ensures
        inv.command == command_of(texts_of(args@)),
        opt_view(inv.config) == value_of(texts_of(args@), "--config"@),
        inv.insecure_local == texts_of(args@).contains("--insecure-local"@),
        inv.password_stdin == texts_of(args@).contains("--password-stdin"@),
        opt_view(inv.qr_png) == value_of(texts_of(args@), "--qr-png"@),
{
    let command = if args.len() == 0 {
        Command::Usage
    } else {
        assert(texts_of(args@)[0] == args@[0]@);
        if same(&args[0], "serve") {
            Command::Serve
        } else if same(&args[0], "setup") {
            Command::Setup
        } else if same(&args[0], "doctor") {
            Command::Doctor
        } else {
            Command::Usage
        }
    };
    Invocation {
        command,
        config: value(args, "--config"),
        insecure_local: flag(args, "--insecure-local"),
        password_stdin: flag(args, "--password-stdin"),
        qr_png: value(args, "--qr-png"),
    }
}

/// The value of an option is the argument behind its first occurrence; without an argument behind it,
/// or without the option, it has none.
pub proof fn the_next_argument_is_the_value(args: Seq<Seq<char>>, name: Seq<char>, i: int)
    requires
        0 <= i <= args.len(),
        i < args.len() ==> args[i] == name,
        forall|j: int| 0 <= j < i ==> #[trigger] args[j] != name,
    ensures
        value_of(args, name) == if i + 1 < args.len() {
            Some(args[i + 1])
        } else {
            None
        },
    decreases args.len(),
{
    if i > 0 {
        assert(args[0] != name);
        let rest = args.drop_first();
        assert forall|j: int| 0 <= j < i - 1 implies #[trigger] rest[j] != name by {
            assert(rest[j] == args[j + 1]);
        }
        if i < args.len() {
            assert(rest[i - 1] == args[i]);
        }
        if i + 1 < args.len() {
            assert(rest[i] == args[i + 1]);
        }
        the_next_argument_is_the_value(rest, name, i - 1);
    }
}

/// The first argument alone says what to do, by one of three names; anything else shows the usage.
pub proof fn the_first_argument_is_the_command(args: Seq<Seq<char>>)
    ensures
        command_of(args) is Serve <==> args.len() > 0 && args[0] == "serve"@,
        command_of(args) is Setup <==> args.len() > 0 && args[0] == "setup"@,
        command_of(args) is Doctor <==> args.len() > 0 && args[0] == "doctor"@,
{
    reveal_strlit("serve");
    reveal_strlit("setup");
    reveal_strlit("doctor");
    assert("serve"@[1] != "setup"@[1] || "serve"@[2] != "setup"@[2]);
    assert("serve"@.len() != "doctor"@.len());
    assert("setup"@.len() != "doctor"@.len());
}

} // verus!
