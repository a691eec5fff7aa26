//! The command line.

use crate::text::strings;
use vstd::prelude::*;

verus! {

/// Where the configuration of the system stands.
pub const DEFAULT_CONFIG: &'static str = "/etc/umami/umami.toml";

/// Where a configuration may stand besides.
pub const LOCAL_CONFIG: &'static str = "./umami.toml";

/// Where `s` first stands among the texts; their number where it does not.
pub open spec fn first_of(all: Seq<Seq<char>>, s: Seq<char>) -> nat
    decreases all.len(),
{
    if all.len() > 0 && all[0] != s {
        1 + first_of(all.drop_first(), s)
    } else {
        0
    }
}

/// Where `s` first stands among the arguments.
fn index_of(args: &Vec<String>, s: &str) -> (r: usize)
    ensures
        r == first_of(strings(args@), s@),
        r <= args@.len(),
{
    let ghost all = strings(args@);
    let name: String = String::from_str(s);
    let mut i: usize = 0;
    proof {
        assert(all.skip(0) == all);
    }
    while i < args.len()
        invariant
            i <= args@.len(),
            all == strings(args@),
            name@ == s@,
            first_of(all, s@) == i + first_of(all.skip(i as int), s@),
        decreases args@.len() - i,
    {
        proof {
            assert(all[i as int] == args@[i as int]@);
            assert(all.skip(i as int).drop_first() == all.skip(i + 1));
        }
        if args[i] == name {
            return i;
        }
        i = i + 1;
    }
    i
}

/// The argument behind the first one that reads `name`.
pub open spec fn value_behind(all: Seq<Seq<char>>, name: Seq<char>) -> Option<Seq<char>> {
    let i = first_of(all, name);
    if i + 1 < all.len() {
        Some(all[i as int + 1])
    } else {
        None
    }
}

/// The argument behind the flag `name`.
pub fn flag_value(args: &Vec<String>, name: &str) -> (r: Option<String>)
    ensures
        r is Some <==> value_behind(strings(args@), name@) is Some,
        r matches Some(v) ==> value_behind(strings(args@), name@) == Some(v@),
{
    let i: usize = index_of(args, name);
    if i < args.len() && i + 1 < args.len() {
        Some(args[i + 1].clone())
    } else {
        None
    }
}

/// What the program is asked to do.
#[derive(Debug)]
pub enum Command {
    /// Run the control loop in the foreground.
    Daemon,
    /// Configure the tiers; perhaps write swap signatures too.
    Setup(bool),
    /// Take the tiers down.
    Teardown,
    /// Print a status report.
    Status,
    /// Print the usage.
    Help,
    /// Nothing was asked for.
    Nothing,
    /// Something was asked for that there is not.
    Unknown(String),
}

/// What the program is asked to do, as the contracts see it.
pub enum Request {
    Daemon,
    Setup(bool),
    Teardown,
    Status,
    Help,
    Nothing,
    Unknown(Seq<char>),
}

impl View for Command {
    type V = Request;

    open spec fn view(&self) -> Request {
        match *self {
            Command::Daemon => Request::Daemon,
            Command::Setup(format) => Request::Setup(format),
            Command::Teardown => Request::Teardown,
            Command::Status => Request::Status,
            Command::Help => Request::Help,
            Command::Nothing => Request::Nothing,
            Command::Unknown(name) => Request::Unknown(name@),
        }
    }
}

/// What arguments ask for: the first one is the command.
pub open spec fn request(all: Seq<Seq<char>>) -> Request {
    if all.len() == 0 {
        Request::Nothing
    } else if all[0] == "daemon"@ {
        Request::Daemon
    } else if all[0] == "setup"@ {
        Request::Setup(all.contains("--format"@))
    } else if all[0] == "teardown"@ {
        Request::Teardown
    } else if all[0] == "status"@ {
        Request::Status
    } else if all[0] == "help"@ || all[0] == "--help"@ || all[0] == "-h"@ {
        Request::Help
    } else {
        Request::Unknown(all[0])
    }
}

/// Whether `s` is found at its first place.
proof fn lemma_first_of(all: Seq<Seq<char>>, s: Seq<char>)
    ensures
        first_of(all, s) <= all.len(),
        first_of(all, s) < all.len() <==> all.contains(s),
    decreases all.len(),
{
    if all.len() > 0 {
        let t = all.drop_first();
        if all[0] == s {
            assert(all.contains(s));
        } else {
            lemma_first_of(t, s);
            if t.contains(s) {
                let i = choose|i: int| 0 <= i < t.len() && t[i] == s;
                assert(all[i + 1] == s);
            }
            if all.contains(s) {
                let i = choose|i: int| 0 <= i < all.len() && all[i] == s;
                assert(t[i - 1] == s);
            }
        }
    }
}

/// What the arguments ask for.
pub fn parse_command(args: &Vec<String>) -> (r: Command)
    ensures
        r@ == request(strings(args@)),
        args@.len() > 0 && args@[0]@ == "setup"@ ==> (r matches Command::Setup(f) && f == exists|i: int|
            0 <= i < args@.len() && (#[trigger] args@[i])@ == "--format"@),
{
    proof {
        let all = strings(args@);
        let word = "--format"@;
        if all.contains(word) {
            let i = choose|i: int| 0 <= i < all.len() && all[i] == word;
            assert(args@[i]@ == word);
        }
        if exists|i: int| 0 <= i < args@.len() && (#[trigger] args@[i])@ == word {
            let i = choose|i: int| 0 <= i < args@.len() && (#[trigger] args@[i])@ == word;
            assert(all[i] == word);
        }
        reveal_strlit("daemon");
        reveal_strlit("setup");
    }
    if args.len() == 0 {
        return Command::Nothing;
    }
    let ghost all = strings(args@);
    proof {
        assert(all[0] == args@[0]@);
        lemma_first_of(all, "--format"@);
    }
    if args[0] == String::from_str("daemon") {
        Command::Daemon
    } else if args[0] == String::from_str("setup") {
        Command::Setup(index_of(args, "--format") < args.len())
    } else if args[0] == String::from_str("teardown") {
        Command::Teardown
    } else if args[0] == String::from_str("status") {
        Command::Status
    } else if args[0] == String::from_str("help") || args[0] == String::from_str("--help")
        || args[0] == String::from_str("-h") {
        Command::Help
    } else {
        Command::Unknown(args[0].clone())
    }
}

/// The exit code of a request that is answered by the usage alone.
pub open spec fn usage_code(r: Request) -> Option<u8> {
    match r {
        Request::Help => Some(0),
        Request::Nothing => Some(2),
        Request::Unknown(_) => Some(2),
        _ => None,
    }
}

impl Command {
    /// The exit code of a command that is answered by the usage alone.
    pub fn usage_exit(&self) -> (r: Option<u8>)
        ensures
            r == usage_code(self@),
    {
        match self {
            Command::Help => Some(0),
            Command::Nothing => Some(2),
            Command::Unknown(_) => Some(2),
            _ => None,
        }
    }
}

/// The files where the configuration may stand, in the order in which they are
/// tried.
pub open spec fn candidates(flag: Option<Seq<char>>) -> Seq<Seq<char>> {
    match flag {
        Some(path) => seq![path, DEFAULT_CONFIG@, LOCAL_CONFIG@],
        None => seq![DEFAULT_CONFIG@, LOCAL_CONFIG@],
    }
}

/// The files where the configuration may stand: the one that was asked for, if
/// one was, then that of the system, then a local one.
pub fn config_candidates(flag: Option<String>) -> (r: Vec<String>)
    ensures
        flag matches Some(path) ==> strings(r@) == candidates(Some(path@)),
        flag is None ==> strings(r@) == candidates(None),
{
    let mut out: Vec<String> = Vec::new();
    let ghost asked = flag;
    if let Some(path) = flag {
        out.push(path);
    }
    out.push(String::from_str(DEFAULT_CONFIG));
    out.push(String::from_str(LOCAL_CONFIG));
    proof {
        match asked {
            Some(path) => {
                assert(strings(out@) =~= seq![path@, DEFAULT_CONFIG@, LOCAL_CONFIG@]);
            },
            None => {
                assert(strings(out@) =~= seq![DEFAULT_CONFIG@, LOCAL_CONFIG@]);
            },
        }
    }
    out
}

/// The index of the first of the candidates that exists.
pub open spec fn first_present(exists: Seq<bool>) -> Option<nat>
    decreases exists.len(),
{
    if exists.len() == 0 {
        None
    } else if exists[0] {
        Some(0)
    } else {
        match first_present(exists.drop_first()) {
            Some(i) => Some(i + 1),
            None => None,
        }
    }
}

/// The search order: the file that was asked for, if it exists; then that of
/// the system, then the local one; without any of them there is nothing to
/// load.
pub proof fn law_search_order(flag: Option<Seq<char>>, there: spec_fn(Seq<char>) -> bool)
    ensures
        ({
            let all = candidates(flag);
            let found = match first_present(all.map_values(there)) {
                Some(i) => Some(all[i as int]),
                None => None,
            };
            found == if flag is Some && there(flag->0) {
                flag
            } else if there(DEFAULT_CONFIG@) {
                Some(DEFAULT_CONFIG@)
            } else if there(LOCAL_CONFIG@) {
                Some(LOCAL_CONFIG@)
            } else {
                None
            }
        }),
{
    reveal_with_fuel(first_present, 4);
    let all = candidates(flag);
    let b = all.map_values(there);
    assert(b.drop_first() =~= all.drop_first().map_values(there));
    assert(b.drop_first().drop_first() =~= all.drop_first().drop_first().map_values(there));
}

/// The candidate to load, given which of them exist: the first that does; none
/// where the built-in defaults have to do.
pub fn pick_config(exists: &Vec<bool>) -> (r: Option<usize>)
    ensures
        r is Some <==> first_present(exists@) is Some,
        r matches Some(i) ==> first_present(exists@) == Some(i as nat),
        r matches Some(i) ==> i < exists@.len() && exists@[i as int] && forall|j: int|
            0 <= j < i ==> !exists@[j],
        r is None ==> forall|j: int| 0 <= j < exists@.len() ==> !exists@[j],
{
    let mut i: usize = 0;
    proof {
        assert(exists@.skip(0) == exists@);
    }
    while i < exists.len()
        invariant
            i <= exists@.len(),
            forall|j: int| 0 <= j < i ==> !exists@[j],
            first_present(exists@) == match first_present(exists@.skip(i as int)) {
                Some(k) => Some(i as nat + k),
                None => None,
            },
        decreases exists@.len() - i,
    {
        proof {
            assert(exists@.skip(i as int).drop_first() == exists@.skip(i + 1));
        }
        if exists[i] {
            return Some(i);
        }
        i = i + 1;
    }
    None
}

} // verus!
