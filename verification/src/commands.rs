//! What the command line promises: which words ask for what, wherever the flags
//! stand.

use crate::cli::{config_candidates, flag_value, parse_command, pick_config, value_behind, Command};
use crate::text::strings;
use vstd::prelude::*;

verus! {

/// Whether a word is among the arguments from the index `from` on.
pub open spec fn given(args: Seq<String>, from: int, word: Seq<char>) -> bool {
    exists|i: int| from <= i < args.len() && (#[trigger] args[i])@ == word
}

/// The words that name commands are all different.
proof fn lemma_words_differ()
    ensures
        "daemon"@ != "setup"@,
        "daemon"@ != "teardown"@,
        "daemon"@ != "status"@,
        "daemon"@ != "help"@,
        "daemon"@ != "--help"@,
        "daemon"@ != "-h"@,
        "setup"@ != "teardown"@,
        "setup"@ != "status"@,
        "setup"@ != "help"@,
        "setup"@ != "--help"@,
        "setup"@ != "-h"@,
        "setup"@ != "--format"@,
        "teardown"@ != "status"@,
        "teardown"@ != "help"@,
        "teardown"@ != "--help"@,
        "teardown"@ != "-h"@,
        "status"@ != "help"@,
        "status"@ != "--help"@,
        "status"@ != "-h"@,
{
    reveal_strlit("daemon");
    reveal_strlit("setup");
    reveal_strlit("teardown");
    reveal_strlit("status");
    reveal_strlit("help");
    reveal_strlit("--help");
    reveal_strlit("-h");
    reveal_strlit("--format");
    assert("daemon"@[0] == 'd' && "setup"@[0] == 's' && "teardown"@[0] == 't' && "status"@[0] == 's'
        && "help"@[0] == 'h' && "--help"@[0] == '-' && "-h"@[0] == '-' && "--format"@[0] == '-');
    assert("setup"@[1] == 'e' && "status"@[1] == 't');
}

/// Setting up writes swap signatures if and only if the flag for it is among
/// the arguments, at any place behind the command.
pub proof fn law_format_is_seen_anywhere(args: Vec<String>, c: Command)
    requires
        call_ensures(parse_command, (&args,), c),
        args@.len() > 0,
        args@[0]@ == "setup"@,
    ensures
        c matches Command::Setup(format) && (format <==> given(args@, 1, "--format"@)),
{
    lemma_words_differ();
    if given(args@, 1, "--format"@) {
        let i = choose|i: int| 1 <= i < args@.len() && (#[trigger] args@[i])@ == "--format"@;
        assert(args@[i]@ == "--format"@);
    }
}

/// The first argument is the command, and nothing else is; a word that names no
/// command is handed back.
pub proof fn law_first_word_is_the_command(args: Vec<String>, c: Command)
    requires
        call_ensures(parse_command, (&args,), c),
    ensures
        c is Nothing <==> args@.len() == 0,
        args@.len() > 0 ==> {
            let word = args@[0]@;
            &&& c is Daemon <==> word == "daemon"@
            &&& c is Setup <==> word == "setup"@
            &&& c is Teardown <==> word == "teardown"@
            &&& c is Status <==> word == "status"@
            &&& c is Help <==> word == "help"@ || word == "--help"@ || word == "-h"@
            &&& c matches Command::Unknown(name) ==> name@ == word
        },
{
    lemma_words_differ();
    if args@.len() > 0 {
        assert(strings(args@)[0] == args@[0]@);
    }
}

/// What stands behind the command, but for the flag, does not matter.
pub proof fn law_other_words_do_not_matter(a: Vec<String>, b: Vec<String>, c: Command, d: Command)
    requires
        call_ensures(parse_command, (&a,), c),
        call_ensures(parse_command, (&b,), d),
        a@.len() > 0,
        b@.len() > 0,
        a@[0]@ == b@[0]@,
        given(a@, 1, "--format"@) == given(b@, 1, "--format"@),
    ensures
        c@ == d@,
{
    law_first_word_is_the_command(a, c);
    law_first_word_is_the_command(b, d);
    if a@[0]@ == "setup"@ {
        law_format_is_seen_anywhere(a, c);
        law_format_is_seen_anywhere(b, d);
    }
}

/// Asking for help succeeds; asking for nothing, or for what there is not, is an
/// error; no other command is answered by the usage.
pub proof fn law_usage(c: Command, r: Option<u8>)
    requires
        call_ensures(Command::usage_exit, (&c,), r),
    ensures
        c is Help <==> r == Some(0u8),
        c is Nothing || c is Unknown <==> r == Some(2u8),
        c is Daemon || c is Setup || c is Teardown || c is Status <==> r is None,
{
}

proof fn lemma_first_place(all: Seq<Seq<char>>, s: Seq<char>)
    ensures
        ({
            let i = crate::cli::first_of(all, s) as int;
            &&& 0 <= i <= all.len()
            &&& i < all.len() ==> all[i] == s
            &&& forall|j: int| 0 <= j < i ==> all[j] != s
        }),
    decreases all.len(),
{
    if all.len() > 0 && all[0] != s {
        let t = all.drop_first();
        lemma_first_place(t, s);
        assert forall|j: int| 0 <= j < 1 + crate::cli::first_of(t, s) implies all[j] != s by {
            if j > 0 {
                assert(t[j - 1] == all[j]);
            }
        }
    }
}

/// The value of a flag is the argument right behind the first place where the
/// flag stands; there is none where the flag is missing or stands last.
pub proof fn law_value_of_a_flag(args: Vec<String>, name: &str, r: Option<String>, i: int)
    requires
        call_ensures(flag_value, (&args, name), r),
        0 <= i < args@.len(),
        args@[i]@ == name@,
        forall|j: int| 0 <= j < i ==> (#[trigger] args@[j])@ != name@,
    ensures
        i + 1 < args@.len() ==> (r matches Some(v) && v@ == args@[i + 1]@),
        i + 1 == args@.len() ==> r is None,
{
    let all = strings(args@);
    lemma_first_place(all, name@);
    let k = crate::cli::first_of(all, name@) as int;
    assert(all[i] == name@);
    if k < i {
        assert(args@[k]@ == all[k]);
    }
    assert(k == i);
    if i + 1 < args@.len() {
        assert(all[i + 1] == args@[i + 1]@);
        assert(value_behind(all, name@) is Some);
    }
}

/// A flag that is not given has no value.
pub proof fn law_missing_flag_has_no_value(args: Vec<String>, name: &str, r: Option<String>)
    requires
        call_ensures(flag_value, (&args, name), r),
        !given(args@, 0, name@),
    ensures
        r is None,
{
    let all = strings(args@);
    lemma_first_place(all, name@);
    let k = crate::cli::first_of(all, name@) as int;
    if k < all.len() {
        assert(args@[k]@ == name@);
    }
}

/// The places where the configuration may stand: the one that was asked for, if
/// any, then that of the system, then the local one.
pub proof fn law_places_to_search(
    path: String,
    asked: Vec<String>,
    unasked: Vec<String>,
    exists_at: Vec<bool>,
    picked: Option<usize>,
)
    requires
        call_ensures(config_candidates, (Some(path),), asked),
        call_ensures(config_candidates, (None::<String>,), unasked),
        call_ensures(pick_config, (&exists_at,), picked),
    ensures
        asked@.len() == 3 && asked@[0]@ == path@ && asked@[1]@ == "/etc/umami/umami.toml"@
            && asked@[2]@ == "./umami.toml"@,
        unasked@.len() == 2 && unasked@[0]@ == "/etc/umami/umami.toml"@ && unasked@[1]@
            == "./umami.toml"@,
        picked is None <==> forall|j: int| 0 <= j < exists_at@.len() ==> !exists_at@[j],
        picked matches Some(i) ==> i < exists_at@.len() && exists_at@[i as int] && forall|j: int|
            0 <= j < i ==> !exists_at@[j],
{
    assert(strings(asked@).len() == 3 && strings(unasked@).len() == 2);
    assert(strings(asked@)[0] == asked@[0]@ && strings(asked@)[1] == asked@[1]@ && strings(
        asked@,
    )[2] == asked@[2]@);
    assert(strings(unasked@)[0] == unasked@[0]@ && strings(unasked@)[1] == unasked@[1]@);
}

} // verus!
