use vstd::prelude::*;

use crate::text::{chars_eq, chars_of};

verus! {

/// The options of one run.
pub struct Args {
    pub formula: Option<String>,
    pub json: bool,
    pub by_sheet: bool,
}

/// What the command line asks for: the help text, or a run.
pub enum Command {
    Help,
    Run(Args),
}

/// The model of the outcome of reading the command line.
pub enum CommandView {
    Help,
    Fail(Seq<char>),
    Run { formula: Option<Seq<char>>, json: bool, by_sheet: bool },
}

/// The model of what `parse_args` returns.
pub open spec fn command_view(r: Result<Command, String>) -> CommandView {
    match r {
        Ok(Command::Help) => CommandView::Help,
        Ok(Command::Run(a)) => CommandView::Run {
            formula: crate::reference::opt_view(a.formula),
            json: a.json,
            by_sheet: a.by_sheet,
        },
        Err(e) => CommandView::Fail(e@),
    }
}

/// A flag: an argument that starts with `-` and is not `-` alone.
pub open spec fn is_flag(a: Seq<char>) -> bool {
    a.len() > 0 && a[0] == '-' && a != "-"@
}

/// Reading the arguments from position `k` on, with the options read so
/// far; `-h`/`--help` stops at once, the first bad argument stops with its
/// error.
pub open spec fn read_args(
    args: Seq<Seq<char>>,
    k: int,
    formula: Option<Seq<char>>,
    json: bool,
    by_sheet: bool,
) -> CommandView
    decreases args.len() - k,
{
    if k < 0 || k >= args.len() {
        if by_sheet && json {
            CommandView::Fail("--by-sheet has no effect with --json"@)
        } else {
            CommandView::Run { formula, json, by_sheet }
        }
    } else {
        let a = args[k];
        if a == "--json"@ {
            read_args(args, k + 1, formula, true, by_sheet)
        } else if a == "--by-sheet"@ {
            read_args(args, k + 1, formula, json, true)
        } else if a == "-h"@ || a == "--help"@ {
            CommandView::Help
        } else if is_flag(a) {
            CommandView::Fail("unrecognized flag: "@ + a)
        } else if formula is Some {
            CommandView::Fail("only one formula argument is allowed"@)
        } else {
            read_args(args, k + 1, Some(a), json, by_sheet)
        }
    }
}

/// The models of the arguments.
pub open spec fn args_view(args: Seq<String>) -> Seq<Seq<char>> {
    args.map_values(|a: String| a@)
}

fn is_flag_arg(a: &str) -> (b: bool)
    ensures
        b == is_flag(a@),
{
    let v = chars_of(a);
    v.len() > 0 && v[0] == '-' && !chars_eq(a, "-")
}

/// Reads the command-line arguments (without the program name): `--json`,
/// `--by-sheet`, `-h`/`--help`, and at most one formula. Refuses an unknown
/// flag, a second formula, and `--by-sheet` together with `--json`.
pub fn parse_args(args: &Vec<String>) -> (r: Result<Command, String>)
    ensures
        command_view(r) == read_args(args_view(args@), 0, None, false, false),
{
    let ghost av = args_view(args@);
    let mut formula: Option<String> = None;
    let mut json = false;
    let mut by_sheet = false;
    let mut k: usize = 0;
    while k < args.len()
        invariant
            av == args_view(args@),
            k <= args.len(),
            read_args(av, 0, None, false, false) == read_args(
                av,
                k as int,
                crate::reference::opt_view(formula),
                json,
                by_sheet,
            ),
        decreases args.len() - k,
    {
        let a = args[k].as_str();
        assert(av[k as int] == a@);
        if chars_eq(a, "--json") {
            json = true;
        } else if chars_eq(a, "--by-sheet") {
            by_sheet = true;
        } else if chars_eq(a, "-h") || chars_eq(a, "--help") {
            return Ok(Command::Help);
        } else if is_flag_arg(a) {
            let mut e = String::from_str("unrecognized flag: ");
            e.append(a);
            return Err(e);
        } else {
            if formula.is_some() {
                return Err(String::from_str("only one formula argument is allowed"));
            }
            formula = Some(String::from_str(a));
        }
        k = k + 1;
    }
    if by_sheet && json {
        return Err(String::from_str("--by-sheet has no effect with --json"));
    }
    Ok(Command::Run(Args { formula, json, by_sheet }))
}

/// An option that a run keeps: `--json` or `--by-sheet`.
pub open spec fn is_run_option(a: Seq<char>) -> bool {
    a == "--json"@ || a == "--by-sheet"@
}

proof fn lemma_read_args_run(
    args: Seq<Seq<char>>,
    k: int,
    formula: Option<Seq<char>>,
    json: bool,
    by_sheet: bool,
)
    requires
        0 <= k <= args.len(),
    ensures
        read_args(args, k, formula, json, by_sheet) matches CommandView::Run {
            formula: f,
            json: j,
            by_sheet: b,
        } ==> {
            &&& (j <==> json || args.subrange(k, args.len() as int).contains("--json"@))
            &&& (b <==> by_sheet || args.subrange(k, args.len() as int).contains("--by-sheet"@))
            &&& forall|m: int|
                k <= m < args.len() && !is_run_option(#[trigger] args[m]) ==> formula is None
                    && f == Some(args[m])
            &&& (f is None ==> formula is None)
            &&& (formula is Some ==> f == formula)
            &&& (f is Some && formula is None ==> exists|m: int|
                k <= m < args.len() && f == Some(#[trigger] args[m]) && !is_run_option(args[m]))
            &&& !(j && b)
            &&& forall|m: int|
                k <= m < args.len() ==> is_run_option(#[trigger] args[m]) || (!is_flag(args[m])
                    && args[m] != "-h"@ && args[m] != "--help"@)
            &&& forall|m1: int, m2: int|
                k <= m1 < m2 < args.len() ==> is_run_option(#[trigger] args[m1]) || is_run_option(
                    #[trigger] args[m2],
                )
        },
    decreases args.len() - k,
{
    let rest = args.subrange(k, args.len() as int);
    reveal_strlit("--json");
    reveal_strlit("--by-sheet");
    assert("--json"@ != "--by-sheet"@) by {
        assert("--json"@.len() != "--by-sheet"@.len());
    }
    if k < args.len() {
        let a = args[k];
        let rest1 = args.subrange(k + 1, args.len() as int);
        assert(rest =~= seq![a] + rest1);
        assert(rest[0] == a);
        assert forall|x: Seq<char>| rest.contains(x) <==> (a == x || rest1.contains(x)) by {
            if rest.contains(x) {
                let m = choose|m: int| 0 <= m < rest.len() && rest[m] == x;
                if m > 0 {
                    assert(rest1[m - 1] == x);
                }
            }
            if rest1.contains(x) {
                let m = choose|m: int| 0 <= m < rest1.len() && rest1[m] == x;
                assert(rest[m + 1] == x);
            }
        }
        if a == "--json"@ {
            lemma_read_args_run(args, k + 1, formula, true, by_sheet);
            if let CommandView::Run { formula: f, json: j, by_sheet: b } = read_args(
                args,
                k + 1,
                formula, true, by_sheet,
            ) {
                assert forall|m: int|
                    k <= m < args.len() && !is_run_option(#[trigger] args[m]) implies formula is None
                    && f == Some(args[m]) by {
                    assert(m != k);
                }
                if f is Some && formula is None {
                    let m = choose|m: int|
                        k + 1 <= m < args.len() && f == Some(#[trigger] args[m]) && !is_run_option(args[m]);
                    assert(k <= m < args.len() && f == Some(args[m]) && !is_run_option(args[m]));
                }
            }
        } else if a == "--by-sheet"@ {
            lemma_read_args_run(args, k + 1, formula, json, true);
            if let CommandView::Run { formula: f, json: j, by_sheet: b } = read_args(
                args,
                k + 1,
                formula, json, true,
            ) {
                assert forall|m: int|
                    k <= m < args.len() && !is_run_option(#[trigger] args[m]) implies formula is None
                    && f == Some(args[m]) by {
                    assert(m != k);
                }
                if f is Some && formula is None {
                    let m = choose|m: int|
                        k + 1 <= m < args.len() && f == Some(#[trigger] args[m]) && !is_run_option(args[m]);
                    assert(k <= m < args.len() && f == Some(args[m]) && !is_run_option(args[m]));
                }
            }
        } else if a == "-h"@ || a == "--help"@ {
        } else if is_flag(a) {
        } else if formula is Some {
        } else {
            lemma_read_args_run(args, k + 1, Some(a), json, by_sheet);
            if let CommandView::Run { formula: f, json: j, by_sheet: b } = read_args(
                args,
                k + 1,
                Some(a),
                json,
                by_sheet,
            ) {
                assert(f == Some(a));
                assert(f == Some(args[k]) && !is_run_option(args[k]));
                assert forall|m: int|
                    k <= m < args.len() && !is_run_option(#[trigger] args[m]) implies formula is None
                    && f == Some(args[m]) by {
                    if m > k {
                        assert(!(Some(a) is None));
                    }
                }
                assert forall|m1: int, m2: int|
                    k <= m1 < m2 < args.len() implies is_run_option(#[trigger] args[m1])
                    || is_run_option(#[trigger] args[m2]) by {
                    if m1 == k && !is_run_option(args[m2]) {
                        assert(!(Some(a) is None));
                    }
                }
            }
        }
    } else {
        assert(rest =~= Seq::<Seq<char>>::empty());
    }
}

/// When the command line asks for a run, `--json` and `--by-sheet` are on
/// exactly when they are given, wherever they stand among the arguments,
/// never both; every other argument is the formula, of which there is at
/// most one, and none is a flag or a request for help.
pub proof fn law_run_options(args: Seq<Seq<char>>)
    ensures
        read_args(args, 0, None, false, false) matches CommandView::Run {
            formula: f,
            json: j,
            by_sheet: b,
        } ==> {
            &&& (j <==> args.contains("--json"@))
            &&& (b <==> args.contains("--by-sheet"@))
            &&& forall|m: int|
                0 <= m < args.len() && !is_run_option(#[trigger] args[m]) ==> f == Some(args[m])
            &&& (f matches Some(x) ==> args.contains(x) && !is_run_option(x))
            &&& !(j && b)
            &&& forall|m: int|
                0 <= m < args.len() ==> is_run_option(#[trigger] args[m]) || (!is_flag(args[m])
                    && args[m] != "-h"@ && args[m] != "--help"@)
            &&& forall|m1: int, m2: int|
                0 <= m1 < m2 < args.len() ==> is_run_option(#[trigger] args[m1]) || is_run_option(
                    #[trigger] args[m2],
                )
        },
{
    lemma_read_args_run(args, 0, None, false, false);
    assert(args.subrange(0, args.len() as int) =~= args);
    if let CommandView::Run { formula: f, json: j, by_sheet: b } = read_args(
        args,
        0,
        None,
        false,
        false,
    ) {
        if let Some(x) = f {
            let m = choose|m: int| 0 <= m < args.len() && f == Some(#[trigger] args[m]) && !is_run_option(args[m]);
            assert(args[m] == x);
        }
    }
}

/// The command line asks for the help text only where `-h` or `--help` is
/// among the arguments.
pub proof fn law_help_asked(args: Seq<Seq<char>>, k: int, formula: Option<Seq<char>>, json: bool, by_sheet: bool)
    requires
        0 <= k <= args.len(),
    ensures
        read_args(args, k, formula, json, by_sheet) is Help ==> exists|m: int|
            k <= m < args.len() && (#[trigger] args[m] == "-h"@ || args[m] == "--help"@),
    decreases args.len() - k,
{
    if k < args.len() {
        let a = args[k];
        if a == "--json"@ {
            law_help_asked(args, k + 1, formula, true, by_sheet);
        } else if a == "--by-sheet"@ {
            law_help_asked(args, k + 1, formula, json, true);
        } else if a == "-h"@ || a == "--help"@ {
        } else if is_flag(a) {
        } else if formula is Some {
        } else {
            law_help_asked(args, k + 1, Some(a), json, by_sheet);
        }
    }
}

/// A flag that the command line does not know: neither `--json`,
/// `--by-sheet`, `-h` nor `--help`.
pub open spec fn is_unknown_flag(a: Seq<char>) -> bool {
    is_flag(a) && !is_run_option(a) && a != "-h"@ && a != "--help"@
}

proof fn lemma_read_args_accepted(
    args: Seq<Seq<char>>,
    k: int,
    formula: Option<Seq<char>>,
    json: bool,
    by_sheet: bool,
)
    requires
        0 <= k <= args.len(),
        forall|m: int| k <= m < args.len() ==> is_run_option(#[trigger] args[m]) || !is_flag(args[m]),
        forall|m1: int, m2: int|
            k <= m1 < m2 < args.len() ==> is_flag(#[trigger] args[m1]) || is_flag(#[trigger] args[m2]),
        formula is Some ==> forall|m: int| k <= m < args.len() ==> is_flag(#[trigger] args[m]),
        !((json || exists|m: int| k <= m < args.len() && #[trigger] args[m] == "--json"@) && (by_sheet
            || exists|m: int| k <= m < args.len() && #[trigger] args[m] == "--by-sheet"@)),
    ensures
        read_args(args, k, formula, json, by_sheet) is Run,
    decreases args.len() - k,
{
    reveal_strlit("--json");
    reveal_strlit("--by-sheet");
    reveal_strlit("-h");
    reveal_strlit("--help");
    reveal_strlit("-");
    if k < args.len() {
        let a = args[k];
        assert("--json"@.len() != "-"@.len());
        assert("--by-sheet"@.len() != "-"@.len());
        assert(is_flag("--json"@));
        assert(is_flag("--by-sheet"@));
        if a == "--json"@ {
            assert(args[k] == "--json"@);
            lemma_read_args_accepted(args, k + 1, formula, true, by_sheet);
        } else if a == "--by-sheet"@ {
            assert(args[k] == "--by-sheet"@);
            lemma_read_args_accepted(args, k + 1, formula, json, true);
        } else {
            assert(!is_flag(a));
            assert(formula is None);
            assert forall|m: int| k + 1 <= m < args.len() implies is_flag(#[trigger] args[m]) by {
                assert(is_flag(args[k]) || is_flag(args[m]));
            }
            lemma_read_args_accepted(args, k + 1, Some(a), json, by_sheet);
        }
    }
}

/// A command line of known options and at most one formula, without both
/// `--json` and `--by-sheet`, is accepted as a run.
pub proof fn law_run_accepted(args: Seq<Seq<char>>)
    requires
        forall|m: int| 0 <= m < args.len() ==> is_run_option(#[trigger] args[m]) || !is_flag(args[m]),
        forall|m1: int, m2: int|
            0 <= m1 < m2 < args.len() ==> is_flag(#[trigger] args[m1]) || is_flag(#[trigger] args[m2]),
        !(args.contains("--json"@) && args.contains("--by-sheet"@)),
    ensures
        read_args(args, 0, None, false, false) is Run,
{
    if exists|m: int| 0 <= m < args.len() && #[trigger] args[m] == "--json"@ {
        let m = choose|m: int| 0 <= m < args.len() && #[trigger] args[m] == "--json"@;
        assert(args.contains("--json"@));
    }
    if exists|m: int| 0 <= m < args.len() && #[trigger] args[m] == "--by-sheet"@ {
        let m = choose|m: int| 0 <= m < args.len() && #[trigger] args[m] == "--by-sheet"@;
        assert(args.contains("--by-sheet"@));
    }
    lemma_read_args_accepted(args, 0, None, false, false);
}

/// Why a command line is refused: an unknown flag, a second formula, or
/// `--json` together with `--by-sheet`; each with its message.
pub open spec fn refusal_reason(args: Seq<Seq<char>>, e: Seq<char>) -> bool {
    ||| exists|m: int| 0 <= m < args.len() && is_unknown_flag(#[trigger] args[m]) && e == "unrecognized flag: "@ + args[m]
    ||| (e == "only one formula argument is allowed"@ && exists|m1: int, m2: int|
        0 <= m1 < m2 < args.len() && !is_flag(#[trigger] args[m1]) && !is_flag(#[trigger] args[m2]))
    ||| (e == "--by-sheet has no effect with --json"@ && args.contains("--json"@) && args.contains("--by-sheet"@))
}

proof fn lemma_read_args_refused(
    args: Seq<Seq<char>>,
    k: int,
    formula: Option<Seq<char>>,
    json: bool,
    by_sheet: bool,
)
    requires
        0 <= k <= args.len(),
        formula is Some ==> exists|m: int| 0 <= m < k && !is_flag(#[trigger] args[m]),
        json ==> args.contains("--json"@),
        by_sheet ==> args.contains("--by-sheet"@),
    ensures
        read_args(args, k, formula, json, by_sheet) matches CommandView::Fail(e) ==> refusal_reason(args, e),
    decreases args.len() - k,
{
    if k < args.len() {
        let a = args[k];
        if a == "--json"@ {
            assert(args[k] == "--json"@);
            lemma_read_args_refused(args, k + 1, formula, true, by_sheet);
        } else if a == "--by-sheet"@ {
            assert(args[k] == "--by-sheet"@);
            lemma_read_args_refused(args, k + 1, formula, json, true);
        } else if a == "-h"@ || a == "--help"@ {
        } else if is_flag(a) {
            assert(is_unknown_flag(args[k]));
        } else if formula is Some {
            let m = choose|m: int| 0 <= m < k && !is_flag(#[trigger] args[m]);
            assert(!is_flag(args[m]) && !is_flag(args[k]));
        } else {
            assert(!is_flag(args[k]));
            lemma_read_args_refused(args, k + 1, Some(a), json, by_sheet);
        }
    }
}

/// A command line is refused only for a reason: an unknown flag among the
/// arguments, two formulas, or both `--json` and `--by-sheet`; and the
/// message says which.
pub proof fn law_refusal_reason(args: Seq<Seq<char>>)
    ensures
        read_args(args, 0, None, false, false) matches CommandView::Fail(e) ==> refusal_reason(args, e),
{
    lemma_read_args_refused(args, 0, None, false, false);
}

} // verus!
