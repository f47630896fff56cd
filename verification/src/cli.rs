//! Reading the command line: the flags `--dry-run` and `-y`/`--yes`, wherever
//! they stand, and the command with its argument.
use crate::text::{parse_unsigned, parse_unsigned_chars, str_eq, to_chars};
use vstd::prelude::*;

verus! {

broadcast use vstd::string::group_string_axioms;

/// The command asked for.
#[derive(Debug, PartialEq, Eq)]
pub enum Command {
    Free(u16),
    Nuke(String),
    Config,
    List,
    Update,
    Info,
    Whereis(String),
    DockerSafe,
    DockerRun,
    Help,
    /// Any other word: a user's command, or an unknown one.
    Other(String),
}

/// A command line as read.
pub struct Invocation {
    pub dry_run: bool,
    pub yes: bool,
    pub command: Command,
}

pub open spec fn is_dry_run_flag(a: Seq<char>) -> bool {
    a == "--dry-run"@
}

pub open spec fn is_yes_flag(a: Seq<char>) -> bool {
    a == "-y"@ || a == "--yes"@
}

/// The arguments that are not flags, in order.
pub open spec fn positional(args: Seq<Seq<char>>) -> Seq<Seq<char>> {
    args.filter(|a: Seq<char>| !is_dry_run_flag(a) && !is_yes_flag(a))
}

/// The argument after the command, or the empty text.
pub open spec fn operand(pos: Seq<Seq<char>>) -> Seq<char> {
    if pos.len() > 2 {
        pos[2]
    } else {
        seq![]
    }
}

/// The port of `wux free`: the operand as a `u16`, else 80.
pub open spec fn port_of(pos: Seq<Seq<char>>) -> u16 {
    if pos.len() > 2 {
        match parse_unsigned(pos[2], u16::MAX as nat) {
            Some(p) => p as u16,
            None => 80,
        }
    } else {
        80
    }
}

/// `c` is the command that the words `pos` (program name first, flags
/// removed) ask for.
pub open spec fn command_matches(c: Command, pos: Seq<Seq<char>>) -> bool {
    if pos.len() <= 1 {
        c == Command::Help
    } else {
        let w = pos[1];
        if w == "free"@ {
            c == Command::Free(port_of(pos))
        } else if w == "nuke"@ {
            c matches Command::Nuke(p) && p@ == operand(pos)
        } else if w == "config"@ {
            c == Command::Config
        } else if w == "list"@ {
            c == Command::List
        } else if w == "update"@ {
            c == Command::Update
        } else if w == "info"@ {
            c == Command::Info
        } else if w == "whereis"@ {
            c matches Command::Whereis(n) && n@ == operand(pos)
        } else if w == "dockersafe"@ {
            c == Command::DockerSafe
        } else if w == "dockerrun"@ {
            c == Command::DockerRun
        } else if w == "help"@ {
            c == Command::Help
        } else {
            c matches Command::Other(o) && o@ == w
        }
    }
}


/// Each built-in word names its own command and no other: `dockerrun` starts
/// the writable sandbox and only `dockersafe` the read-only one; any other word
/// is a user's command of that name; no word at all asks for help. `free` takes
/// its port from the operand when it is a `u16`, else 80.
pub proof fn each_word_names_its_command(c: Command, pos: Seq<Seq<char>>)
    ensures
        command_matches(c, pos) ==> {
            let w = pos[1];
            &&& pos.len() <= 1 ==> c == Command::Help
            &&& (c == Command::Help) <==> (pos.len() <= 1 || w == "help"@)
            &&& (c == Command::Config) <==> (pos.len() > 1 && w == "config"@)
            &&& (c == Command::List) <==> (pos.len() > 1 && w == "list"@)
            &&& (c == Command::Update) <==> (pos.len() > 1 && w == "update"@)
            &&& (c == Command::Info) <==> (pos.len() > 1 && w == "info"@)
            &&& (c == Command::DockerSafe) <==> (pos.len() > 1 && w == "dockersafe"@)
            &&& (c == Command::DockerRun) <==> (pos.len() > 1 && w == "dockerrun"@)
            &&& (c is Free) <==> (pos.len() > 1 && w == "free"@)
            &&& (c is Nuke) <==> (pos.len() > 1 && w == "nuke"@)
            &&& (c is Whereis) <==> (pos.len() > 1 && w == "whereis"@)
            &&& c matches Command::Nuke(p) ==> p@ == (if pos.len() > 2 {
                pos[2]
            } else {
                seq![]
            })
            &&& c matches Command::Whereis(n) ==> n@ == (if pos.len() > 2 {
                pos[2]
            } else {
                seq![]
            })
            &&& c matches Command::Free(port) ==> (if pos.len() > 2 && parse_unsigned(
                pos[2],
                u16::MAX as nat,
            ) is Some {
                port as nat == parse_unsigned(pos[2], u16::MAX as nat)->0
            } else {
                port == 80
            })
            &&& c matches Command::Other(o) ==> pos.len() > 1 && o@ == w && w != "free"@ && w
                != "nuke"@ && w != "config"@ && w != "list"@ && w != "update"@ && w != "info"@
                && w != "whereis"@ && w != "dockersafe"@ && w != "dockerrun"@ && w != "help"@
        },
{
    reveal_strlit("free");
    reveal_strlit("nuke");
    reveal_strlit("config");
    reveal_strlit("list");
    reveal_strlit("update");
    reveal_strlit("info");
    reveal_strlit("whereis");
    reveal_strlit("dockersafe");
    reveal_strlit("dockerrun");
    reveal_strlit("help");
    if command_matches(c, pos) && pos.len() > 1 {
        let w = pos[1];
        // the built-in words differ from each other
        assert("free"@[0] != "nuke"@[0] && "free"@[0] != "config"@[0] && "free"@[0] != "list"@[0]
            && "free"@[0] != "update"@[0] && "free"@[0] != "info"@[0] && "free"@[0]
            != "whereis"@[0] && "free"@[0] != "dockersafe"@[0] && "free"@[0] != "dockerrun"@[0]
            && "free"@[0] != "help"@[0]);
        assert("nuke"@[0] != "config"@[0] && "nuke"@[0] != "list"@[0] && "nuke"@[0]
            != "update"@[0] && "nuke"@[0] != "info"@[0] && "nuke"@[0] != "whereis"@[0]
            && "nuke"@[0] != "dockersafe"@[0] && "nuke"@[0] != "dockerrun"@[0] && "nuke"@[0]
            != "help"@[0]);
        assert("config"@.len() != "list"@.len() && "config"@[0] != "update"@[0] && "config"@[0]
            != "info"@[0] && "config"@[0] != "whereis"@[0] && "config"@[0] != "dockersafe"@[0]
            && "config"@[0] != "dockerrun"@[0] && "config"@[0] != "help"@[0]);
        assert("list"@[0] != "update"@[0] && "list"@[0] != "info"@[0] && "list"@[0]
            != "whereis"@[0] && "list"@[0] != "dockersafe"@[0] && "list"@[0] != "dockerrun"@[0]
            && "list"@[0] != "help"@[0]);
        assert("update"@[0] != "info"@[0] && "update"@[0] != "whereis"@[0] && "update"@[0]
            != "dockersafe"@[0] && "update"@[0] != "dockerrun"@[0] && "update"@[0] != "help"@[0]);
        assert("info"@[0] != "whereis"@[0] && "info"@[0] != "dockersafe"@[0] && "info"@[0]
            != "dockerrun"@[0] && "info"@[0] != "help"@[0]);
        assert("whereis"@[0] != "dockersafe"@[0] && "whereis"@[0] != "dockerrun"@[0]
            && "whereis"@[0] != "help"@[0]);
        assert("dockersafe"@.len() != "dockerrun"@.len() && "dockersafe"@[0] != "help"@[0]);
        assert("dockerrun"@[0] != "help"@[0]);
        if w == "free"@ {
        } else if w == "nuke"@ {
        } else if w == "config"@ {
        } else if w == "list"@ {
        } else if w == "update"@ {
        } else if w == "info"@ {
        } else if w == "whereis"@ {
        } else if w == "dockersafe"@ {
        } else if w == "dockerrun"@ {
        } else if w == "help"@ {
        } else {
        }
    }
}

/// A name reserved against users' commands is always read as a built-in
/// command, never as a user's one.
pub proof fn reserved_names_are_built_in(c: Command, pos: Seq<Seq<char>>)
    ensures
        command_matches(c, pos) && pos.len() > 1 && crate::config::reserved(pos[1]) ==> !(c is Other),
{
    each_word_names_its_command(c, pos);
}

pub open spec fn arg_views(args: Seq<String>) -> Seq<Seq<char>> {
    args.map_values(|a: String| a@)
}

proof fn lemma_filter_push(s: Seq<Seq<char>>, pred: spec_fn(Seq<char>) -> bool, e: Seq<char>)
    ensures
        s.push(e).filter(pred) == (if pred(e) {
            s.filter(pred).push(e)
        } else {
            s.filter(pred)
        }),
{
    reveal(Seq::filter);
    assert(s.push(e).drop_last() =~= s);
}

/// Reads the command line `args` (program name first).
pub fn parse_args(args: &Vec<String>) -> (r: Invocation)
    ensures
        r.dry_run == exists|i: int| 0 <= i < args@.len() && is_dry_run_flag(#[trigger] args@[i]@),
        r.yes == exists|i: int| 0 <= i < args@.len() && is_yes_flag(#[trigger] args@[i]@),
        command_matches(r.command, positional(arg_views(args@))),
        // each built-in word names its own command and no other
        ({
            let pos = positional(arg_views(args@));
            &&& (r.command == Command::Help) <==> (pos.len() <= 1 || pos[1] == "help"@)
            &&& (r.command == Command::Config) <==> (pos.len() > 1 && pos[1] == "config"@)
            &&& (r.command == Command::List) <==> (pos.len() > 1 && pos[1] == "list"@)
            &&& (r.command == Command::Update) <==> (pos.len() > 1 && pos[1] == "update"@)
            &&& (r.command == Command::Info) <==> (pos.len() > 1 && pos[1] == "info"@)
            &&& (r.command == Command::DockerSafe) <==> (pos.len() > 1 && pos[1] == "dockersafe"@)
            &&& (r.command == Command::DockerRun) <==> (pos.len() > 1 && pos[1] == "dockerrun"@)
            &&& (r.command is Free) <==> (pos.len() > 1 && pos[1] == "free"@)
            &&& (r.command is Nuke) <==> (pos.len() > 1 && pos[1] == "nuke"@)
            &&& (r.command is Whereis) <==> (pos.len() > 1 && pos[1] == "whereis"@)
        }),
{
    let ghost all = arg_views(args@);
    let mut dry_run = false;
    let mut yes = false;
    let mut pos: Vec<String> = Vec::new();
    for i in 0..args.len()
        invariant
            all == arg_views(args@),
            arg_views(pos@) == positional(all.take(i as int)),
            dry_run == exists|j: int| 0 <= j < i && is_dry_run_flag(#[trigger] args@[j]@),
            yes == exists|j: int| 0 <= j < i && is_yes_flag(#[trigger] args@[j]@),
    {
        let a = args[i].as_str();
        assert(a@ == args@[i as int]@);
        let ghost prefix = all.take(i as int);
        assert(all.take(i + 1) =~= prefix.push(a@));
        proof {
            lemma_filter_push(prefix, |a: Seq<char>| !is_dry_run_flag(a) && !is_yes_flag(a), a@);
        }
        proof {
            reveal_strlit("--dry-run");
            reveal_strlit("-y");
            reveal_strlit("--yes");
        }
        if str_eq(a, "--dry-run") {
            dry_run = true;
            assert(!is_yes_flag(args@[i as int]@));
        } else if str_eq(a, "-y") || str_eq(a, "--yes") {
            yes = true;
            assert(is_yes_flag(args@[i as int]@));
        } else {
            assert(!is_yes_flag(args@[i as int]@));
            let ghost before = pos@;
            pos.push(args[i].clone());
            assert(arg_views(pos@) =~= arg_views(before).push(a@));
        }
    }
    assert(all.take(args@.len() as int) =~= all);
    let ghost pv = arg_views(pos@);
    let command = if pos.len() <= 1 {
        Command::Help
    } else {
        let w = pos[1].as_str();
        assert(pv[1] == w@);
        let operand: String = if pos.len() > 2 {
            assert(pv[2] == pos@[2]@);
            pos[2].clone()
        } else {
            String::new()
        };
        if str_eq(w, "free") {
            let port: u16 = if pos.len() > 2 {
                let cs = to_chars(pos[2].as_str());
                match parse_unsigned_chars(cs.as_slice(), 0xffff) {
                    Some(p) => p as u16,
                    None => 80,
                }
            } else {
                80
            };
            Command::Free(port)
        } else if str_eq(w, "nuke") {
            Command::Nuke(operand)
        } else if str_eq(w, "config") {
            Command::Config
        } else if str_eq(w, "list") {
            Command::List
        } else if str_eq(w, "update") {
            Command::Update
        } else if str_eq(w, "info") {
            Command::Info
        } else if str_eq(w, "whereis") {
            Command::Whereis(operand)
        } else if str_eq(w, "dockersafe") {
            Command::DockerSafe
        } else if str_eq(w, "dockerrun") {
            Command::DockerRun
        } else if str_eq(w, "help") {
            Command::Help
        } else {
            Command::Other(pos[1].clone())
        }
    };
    proof {
        each_word_names_its_command(command, positional(arg_views(args@)));
    }
    Invocation { dry_run, yes, command }
}

} // verus!
