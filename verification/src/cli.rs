//! The command line.

use vstd::prelude::*;

use crate::config::Scope;
use crate::text::{concat, concat3, quote, quoted, same, starts, starts_with, texts};

verus! {

pub const USAGE: &'static str = "\
dextui — browse and triage dex tasks

USAGE:
    dextui [COMMAND]

With no command, runs the TUI against the dex store for the current directory.

COMMANDS:
    config              Show the config paths and a commented template
    config init         Write a config template
    config edit         Open a config in $EDITOR, creating it if needed
    icons               List the glyph tiers
    selftest            Print the data pipeline as text and exit (no TUI)

OPTIONS:
    -h, --help          Show this help
    -V, --version       Show the version

CONFIG OPTIONS:
    -g, --global        Act on ~/.config/dextui/config.toml (the default)
    -l, --local         Act on .dextui.toml at the git root
        --project       Alias for --local
        --force         With `config init`, overwrite an existing file

    Settings layer defaults < global < project < environment. Inside the app,
    `,` opens the global config in $EDITOR and reloads it when you save.
";

#[derive(Debug, Clone, Copy, PartialEq, Eq, Structural)]
pub enum Command {
    Run,
    Help,
    Version,
    ShowConfig,
    InitConfig { force: bool, scope: Scope },
    EditConfig { scope: Scope },
    Icons,
    SelfTest,
}

/// What to print when there is no terminal to draw into.
pub open spec fn no_terminal() -> Seq<char> {
    "dextui: this needs a real terminal, and stdout is not one.\n\nIt draws a full-screen interface, so it cannot render into a pipe, a file,\nor a job with no terminal attached.\n\nTo inspect the data without a terminal, run `dextui selftest`."@
}

/// What to print when there is no terminal to draw into.
///
/// Piping a full-screen program anywhere -- or running it from a script, a CI
/// job, or an editor's task runner -- would end in a backtrace, which looks like
/// a bug in the app rather than a misuse of it.
///
/// `selftest` exists precisely so the data path can be inspected without a
/// terminal, so it is worth pointing at here.
pub fn requires_a_terminal() -> (r: String)
    ensures
        r@ == no_terminal(),
{
    "dextui: this needs a real terminal, and stdout is not one.\n\nIt draws a full-screen interface, so it cannot render into a pipe, a file,\nor a job with no terminal attached.\n\nTo inspect the data without a terminal, run `dextui selftest`.".to_owned()
}

/// What a single argument is.
pub ghost enum Word {
    Help,
    Version,
    Force,
    Local,
    Global,
    Unknown,
    Plain,
}

/// What a single argument is: an option, known or not, or a word of the command.
pub open spec fn kind_of(arg: Seq<char>) -> Word {
    if arg == "-h"@ || arg == "--help"@ {
        Word::Help
    } else if arg == "-V"@ || arg == "--version"@ {
        Word::Version
    } else if arg == "--force"@ {
        Word::Force
    } else if arg == "-l"@ || arg == "--local"@ || arg == "--project"@ {
        Word::Local
    } else if arg == "-g"@ || arg == "--global"@ {
        Word::Global
    } else if starts(arg, "-"@) {
        Word::Unknown
    } else {
        Word::Plain
    }
}

/// What the first argument that settles everything by itself says: help, the
/// version, or an option that is not known.
pub open spec fn settled_by(args: Seq<Seq<char>>) -> Option<Result<Command, Seq<char>>>
    decreases args.len(),
{
    if args.len() == 0 {
        None
    } else {
        match settled_by(args.drop_last()) {
            Some(r) => Some(r),
            None => match kind_of(args.last()) {
                Word::Help => Some(Ok(Command::Help)),
                Word::Version => Some(Ok(Command::Version)),
                Word::Unknown => Some(Err("unknown option "@ + quoted(args.last()))),
                _ => None,
            },
        }
    }
}

/// Whether `--force` is among the arguments.
pub open spec fn forced(args: Seq<Seq<char>>) -> bool
    decreases args.len(),
{
    args.len() > 0 && (kind_of(args.last()) is Force || forced(args.drop_last()))
}

/// The scope the last scope option names; the global one when there is none.
pub open spec fn scope_of(args: Seq<Seq<char>>) -> Scope
    decreases args.len(),
{
    if args.len() == 0 {
        Scope::Global
    } else {
        match kind_of(args.last()) {
            Word::Local => Scope::Project,
            Word::Global => Scope::Global,
            _ => scope_of(args.drop_last()),
        }
    }
}

/// The words of the command.
pub open spec fn words_in(args: Seq<Seq<char>>) -> Seq<Seq<char>> {
    args.filter(|a: Seq<char>| kind_of(a) is Plain)
}

/// What a command's words ask for.
pub open spec fn asked(words: Seq<Seq<char>>, force: bool, scope: Scope) -> Result<
    Command,
    Seq<char>,
> {
    if words.len() == 0 {
        Ok(Command::Run)
    } else if words[0] == "config"@ && words.len() == 1 {
        Ok(Command::ShowConfig)
    } else if words[0] == "config"@ && words.len() == 2 {
        if words[1] == "init"@ {
            Ok(Command::InitConfig { force, scope })
        } else if words[1] == "edit"@ {
            Ok(Command::EditConfig { scope })
        } else {
            Err(
                "unknown config command "@ + quoted(words[1]) + "; expected `init` or `edit`"@,
            )
        }
    } else if words[0] == "icons"@ && words.len() == 1 {
        Ok(Command::Icons)
    } else if words[0] == "selftest"@ && words.len() == 1 {
        Ok(Command::SelfTest)
    } else {
        Err("unknown command "@ + quoted(words[0]))
    }
}

/// What a command line asks for.
pub open spec fn parsed(args: Seq<Seq<char>>) -> Result<Command, Seq<char>> {
    match settled_by(args) {
        Some(r) => r,
        None => asked(words_in(args), forced(args), scope_of(args)),
    }
}

/// The text behind an outcome.
pub open spec fn outcome_text(r: Result<Command, String>) -> Result<Command, Seq<char>> {
    match r {
        Ok(c) => Ok(c),
        Err(e) => Err(e@),
    }
}

proof fn lemma_settled_prefix(args: Seq<Seq<char>>, n: int)
    requires
        0 <= n <= args.len(),
        settled_by(args.take(n)) is Some,
    ensures
        settled_by(args) == settled_by(args.take(n)),
    decreases args.len(),
{
    if n < args.len() {
        assert(args.drop_last().take(n) =~= args.take(n));
        lemma_settled_prefix(args.drop_last(), n);
    } else {
        assert(args.take(n) =~= args);
    }
}

fn command_for(words: &Vec<&str>, force: bool, scope: Scope) -> (r: Result<Command, String>)
    ensures
        outcome_text(r) == asked(words@.map_values(|w: &str| w@), force, scope),
{
    let ghost all = words@.map_values(|w: &str| w@);
    assert(all.len() == words.len());
    if words.len() == 0 {
        return Ok(Command::Run);
    }
    let first = words[0];
    assert(all[0] == first@);
    if same(first, "config") {
        if words.len() == 1 {
            return Ok(Command::ShowConfig);
        }
        if words.len() == 2 {
            let second = words[1];
            assert(all[1] == second@);
            if same(second, "init") {
                return Ok(Command::InitConfig { force, scope });
            }
            if same(second, "edit") {
                return Ok(Command::EditConfig { scope });
            }
            return Err(
                concat3(
                    "unknown config command ",
                    quote(second).as_str(),
                    "; expected `init` or `edit`",
                ),
            );
        }
    }
    if words.len() == 1 {
        proof {
            reveal_strlit("config");
            reveal_strlit("icons");
            reveal_strlit("selftest");
        }
        if same(first, "icons") {
            return Ok(Command::Icons);
        }
        if same(first, "selftest") {
            return Ok(Command::SelfTest);
        }
    }
    Err(concat("unknown command ", quote(first).as_str()))
}

/// Subcommands rather than flags, and `-l`/`-g` rather than invented spellings,
/// so the vocabulary matches `dex` itself -- these two are always used together.
///
/// The point is that an unrecognised argument is an error rather than a silent
/// fall-through into launching the TUI.
pub fn parse(args: &Vec<String>) -> (r: Result<Command, String>)
    ensures
        outcome_text(r) == parsed(texts(args@)),
{
    let ghost all = texts(args@);
    let ghost plain = |a: Seq<char>| kind_of(a) is Plain;
    let mut words: Vec<&str> = Vec::new();
    let mut force = false;
    let mut scope = Scope::Global;
    proof {
        reveal(Seq::filter);
        assert(words@.map_values(|w: &str| w@) =~= Seq::empty());
    }
    for i in 0..args.len()
        invariant
            all == texts(args@),
            plain == (|a: Seq<char>| kind_of(a) is Plain),
            settled_by(all.take(i as int)) is None,
            force == forced(all.take(i as int)),
            scope == scope_of(all.take(i as int)),
            words@.map_values(|w: &str| w@) == all.take(i as int).filter(plain),
    {
        let arg = args[i].as_str();
        proof {
            reveal(Seq::filter);
            assert(all[i as int] == arg@);
            assert(all.take(i + 1).drop_last() =~= all.take(i as int));
            assert(all.take(i + 1).last() == arg@);
            if settled_by(all.take(i + 1)) is Some {
                lemma_settled_prefix(all, i + 1);
            }
        }
        if same(arg, "-h") || same(arg, "--help") {
            return Ok(Command::Help);
        }
        if same(arg, "-V") || same(arg, "--version") {
            return Ok(Command::Version);
        }
        if same(arg, "--force") {
            force = true;
        } else if same(arg, "-l") || same(arg, "--local") || same(arg, "--project") {
            scope = Scope::Project;
        } else if same(arg, "-g") || same(arg, "--global") {
            scope = Scope::Global;
        } else if starts_with(arg, "-") {
            return Err(concat("unknown option ", quote(arg).as_str()));
        } else {
            let ghost before = words@;
            words.push(arg);
            assert(words@.map_values(|w: &str| w@) =~= before.map_values(|w: &str| w@).push(arg@));
        }
    }
    assert(all.take(all.len() as int) =~= all);
    command_for(&words, force, scope)
}

/// Asking for help or the version anywhere, before any option that is not
/// known, always gets it.
pub proof fn law_help_is_always_reachable(args: Seq<Seq<char>>, i: int)
    requires
        0 <= i < args.len(),
        kind_of(args[i]) is Help,
        forall|j: int|
            0 <= j < i ==> !(kind_of(#[trigger] args[j]) is Unknown || kind_of(args[j]) is Version
                || kind_of(args[j]) is Help),
    ensures
        parsed(args) == Ok::<Command, Seq<char>>(Command::Help),
{
    lemma_unsettled(args, i);
    assert(args.take(i + 1).drop_last() =~= args.take(i));
    assert(args.take(i + 1).last() == args[i]);
    lemma_settled_prefix(args, i + 1);
}

proof fn lemma_unsettled(args: Seq<Seq<char>>, i: int)
    requires
        0 <= i <= args.len(),
        forall|j: int|
            0 <= j < i ==> !(kind_of(#[trigger] args[j]) is Unknown || kind_of(args[j]) is Version
                || kind_of(args[j]) is Help),
    ensures
        settled_by(args.take(i)) is None,
    decreases i,
{
    if i > 0 {
        lemma_unsettled(args, i - 1);
        assert(args.take(i).drop_last() =~= args.take(i - 1));
        assert(args.take(i).last() == args[i - 1]);
    }
}

/// With options that settle nothing by themselves, in any number and order, the
/// command is what its words say: none runs the app, and each known one asks for
/// itself and is given the scope and the force that were asked for.
pub proof fn law_the_words_name_the_command(args: Seq<Seq<char>>)
    requires
        forall|i: int|
            0 <= i < args.len() ==> !(kind_of(#[trigger] args[i]) is Help || kind_of(args[i])
                is Version || kind_of(args[i]) is Unknown),
    ensures
        ({
            let words = args.filter(|a: Seq<char>| !starts(a, "-"@));
            &&& words.len() == 0 ==> parsed(args) == Ok::<Command, Seq<char>>(Command::Run)
            &&& words == seq!["config"@] ==> parsed(args) == Ok::<Command, Seq<char>>(
                Command::ShowConfig,
            )
            &&& words == seq!["config"@, "init"@] ==> parsed(args) == Ok::<Command, Seq<char>>(
                Command::InitConfig { force: forced(args), scope: scope_of(args) },
            )
            &&& words == seq!["config"@, "edit"@] ==> parsed(args) == Ok::<Command, Seq<char>>(
                Command::EditConfig { scope: scope_of(args) },
            )
            &&& words == seq!["icons"@] ==> parsed(args) == Ok::<Command, Seq<char>>(Command::Icons)
            &&& words == seq!["selftest"@] ==> parsed(args) == Ok::<Command, Seq<char>>(
                Command::SelfTest,
            )
            &&& words.len() > 2 || words.len() == 2 && words[0] != "config"@ ==> parsed(args) is Err
            &&& words.len() == 2 && words[1] != "init"@ && words[1] != "edit"@ ==> parsed(args)
                is Err
            &&& words.len() == 1 && words[0] != "config"@ && words[0] != "icons"@ && words[0]
                != "selftest"@ ==> parsed(args) is Err
        }),
{
    lemma_nothing_settled(args);
    lemma_same_words(args);
    reveal_strlit("config");
    reveal_strlit("icons");
    reveal_strlit("selftest");
    reveal_strlit("init");
    reveal_strlit("edit");
    assert("config"@.len() == 6 && "icons"@.len() == 5 && "selftest"@.len() == 8);
    assert("init"@[0] == 'i' && "edit"@[0] == 'e');
}

proof fn lemma_nothing_settled(args: Seq<Seq<char>>)
    requires
        forall|i: int|
            0 <= i < args.len() ==> !(kind_of(#[trigger] args[i]) is Help || kind_of(args[i])
                is Version || kind_of(args[i]) is Unknown),
    ensures
        settled_by(args) is None,
    decreases args.len(),
{
    if args.len() > 0 {
        let front = args.drop_last();
        assert forall|i: int| 0 <= i < front.len() implies !(kind_of(#[trigger] front[i]) is Help
            || kind_of(front[i]) is Version || kind_of(front[i]) is Unknown) by {
            assert(front[i] == args[i]);
        }
        lemma_nothing_settled(front);
        assert(args[args.len() - 1] == args.last());
    }
}

proof fn lemma_plain_has_no_dash(a: Seq<char>)
    ensures
        kind_of(a) is Plain <==> !starts(a, "-"@),
{
    reveal_strlit("-");
    reveal_strlit("-h");
    reveal_strlit("--help");
    reveal_strlit("-V");
    reveal_strlit("--version");
    reveal_strlit("--force");
    reveal_strlit("-l");
    reveal_strlit("--local");
    reveal_strlit("--project");
    reveal_strlit("-g");
    reveal_strlit("--global");
    if a.len() > 0 && a[0] == '-' {
        assert(a.subrange(0, 1) =~= "-"@);
    }
}

proof fn lemma_same_words(args: Seq<Seq<char>>)
    ensures
        words_in(args) == args.filter(|a: Seq<char>| !starts(a, "-"@)),
    decreases args.len(),
{
    reveal(Seq::filter);
    if args.len() > 0 {
        lemma_same_words(args.drop_last());
        lemma_plain_has_no_dash(args.last());
    }
}

/// What each option is, however it is spelled; and anything else that starts
/// with a dash is refused.
pub proof fn law_the_options_are_known_by_name(a: Seq<char>)
    ensures
        kind_of(a) is Help <==> a == "-h"@ || a == "--help"@,
        kind_of(a) is Version <==> a == "-V"@ || a == "--version"@,
        kind_of(a) is Force <==> a == "--force"@,
        kind_of(a) is Local <==> a == "-l"@ || a == "--local"@ || a == "--project"@,
        kind_of(a) is Global <==> a == "-g"@ || a == "--global"@,
        kind_of(a) is Plain <==> !starts(a, "-"@),
{
    lemma_plain_has_no_dash(a);
    reveal_strlit("-h");
    reveal_strlit("--help");
    reveal_strlit("-V");
    reveal_strlit("--version");
    reveal_strlit("--force");
    reveal_strlit("-l");
    reveal_strlit("--local");
    reveal_strlit("--project");
    reveal_strlit("-g");
    reveal_strlit("--global");
    assert("-h"@[1] == 'h' && "-V"@[1] == 'V' && "-l"@[1] == 'l' && "-g"@[1] == 'g');
    assert("--help"@.len() == 6 && "--version"@.len() == 9 && "--force"@.len() == 7);
    assert("--local"@.len() == 7 && "--project"@.len() == 9 && "--global"@.len() == 8);
    assert("--local"@[2] == 'l' && "--force"@[2] == 'f');
    assert("--project"@[2] == 'p' && "--version"@[2] == 'v');
}

/// Of several scope options the last one counts; without any it is the global
/// one; and force is on exactly when it is among the arguments.
pub proof fn law_the_last_scope_counts(args: Seq<Seq<char>>, i: int)
    ensures
        0 <= i < args.len() && (kind_of(args[i]) is Local || kind_of(args[i]) is Global) && (forall|
            j: int,
        |
            i < j < args.len() ==> !(kind_of(#[trigger] args[j]) is Local || kind_of(args[j])
                is Global)) ==> scope_of(args) == if kind_of(args[i]) is Local {
            Scope::Project
        } else {
            Scope::Global
        },
        (forall|j: int|
            0 <= j < args.len() ==> !(kind_of(#[trigger] args[j]) is Local || kind_of(args[j])
                is Global)) ==> scope_of(args) == Scope::Global,
        forced(args) <==> exists|j: int| 0 <= j < args.len() && kind_of(#[trigger] args[j]) is Force,
    decreases args.len(),
{
    if args.len() > 0 {
        let front = args.drop_last();
        law_the_last_scope_counts(front, i);
        let n = args.len() - 1;
        assert(args[n] == args.last());
        assert forall|j: int| 0 <= j < front.len() implies front[j] == #[trigger] args[j] by {}
        if forced(front) {
            let j = choose|j: int| 0 <= j < front.len() && kind_of(#[trigger] front[j]) is Force;
            assert(kind_of(args[j]) is Force);
        }
        if exists|j: int| 0 <= j < args.len() && kind_of(#[trigger] args[j]) is Force {
            let j = choose|j: int| 0 <= j < args.len() && kind_of(#[trigger] args[j]) is Force;
            if j < n {
                assert(kind_of(front[j]) is Force);
            }
        }
    }
}

/// Whichever of help, the version and an option that is not known comes first
/// settles the matter, whatever else is said.
pub proof fn law_the_first_to_settle_it_does(args: Seq<Seq<char>>, i: int)
    requires
        0 <= i < args.len(),
        forall|j: int|
            0 <= j < i ==> !(kind_of(#[trigger] args[j]) is Unknown || kind_of(args[j]) is Version
                || kind_of(args[j]) is Help),
    ensures
        args[i] == "-V"@ || args[i] == "--version"@ ==> parsed(args) == Ok::<Command, Seq<char>>(
            Command::Version,
        ),
        args[i] == "-h"@ || args[i] == "--help"@ ==> parsed(args) == Ok::<Command, Seq<char>>(
            Command::Help,
        ),
        kind_of(args[i]) is Unknown ==> parsed(args) is Err,
{
    law_the_options_are_known_by_name(args[i]);
    lemma_unsettled(args, i);
    assert(args.take(i + 1).drop_last() =~= args.take(i));
    assert(args.take(i + 1).last() == args[i]);
    if kind_of(args[i]) is Unknown || kind_of(args[i]) is Version || kind_of(args[i]) is Help {
        lemma_settled_prefix(args, i + 1);
    }
}

} // verus!
