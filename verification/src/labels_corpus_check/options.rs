//! The command line of the corpus check.

use vstd::prelude::*;

use crate::text::same_text;
use crate::text::texts;

verus! {

/// What a run of the corpus check is asked to do.
pub struct Options {
    pub corpus_dir: String,
    pub update: bool,
    pub exact: bool,
    pub filter: Option<String>,
    pub help: bool,
}

/// What a run of the corpus check is asked to do.
pub struct OptionsView {
    pub corpus_dir: Seq<char>,
    pub update: bool,
    pub exact: bool,
    pub filter: Option<Seq<char>>,
    pub help: bool,
}

/// The view of a text that may be missing.
pub open spec fn text_view(text: Option<String>) -> Option<Seq<char>> {
    match text {
        Some(s) => Some(s@),
        None => None,
    }
}

impl View for Options {
    type V = OptionsView;

    open spec fn view(&self) -> OptionsView {
        OptionsView {
            corpus_dir: self.corpus_dir@,
            update: self.update,
            exact: self.exact,
            filter: text_view(self.filter),
            help: self.help,
        }
    }
}

/// Whether the argument at `i` is the text that a `--filter` before it asks for.
pub open spec fn is_filter_value(args: Seq<Seq<char>>, i: int) -> bool
    decreases i,
{
    i > 0 && args[i - 1] == "--filter"@ && !is_filter_value(args, i - 1)
}

/// Whether a text is one of the options.
pub open spec fn is_option(arg: Seq<char>) -> bool {
    arg == "--help"@ || arg == "-h"@ || arg == "--update"@ || arg == "--exact"@ || arg
        == "--filter"@
}

/// Whether an option stands among the first `n` arguments.
pub open spec fn option_given(args: Seq<Seq<char>>, n: int, option: Seq<char>) -> bool {
    exists|i: int| 0 <= i < n && #[trigger] args[i] == option && !is_filter_value(args, i)
}

/// The texts among the first `n` arguments that are neither options nor filters, in their order.
pub open spec fn positionals(args: Seq<Seq<char>>, n: int) -> Seq<Seq<char>>
    decreases n,
{
    if n <= 0 {
        Seq::empty()
    } else if is_filter_value(args, n - 1) || is_option(args[n - 1]) {
        positionals(args, n - 1)
    } else {
        positionals(args, n - 1).push(args[n - 1])
    }
}

/// The last filter among the first `n` arguments.
pub open spec fn last_filter(args: Seq<Seq<char>>, n: int) -> Option<Seq<char>>
    decreases n,
{
    if n <= 0 {
        None
    } else if is_filter_value(args, n - 1) {
        Some(args[n - 1])
    } else {
        last_filter(args, n - 1)
    }
}

/// Whether the arguments end in a `--filter` without its text.
pub open spec fn filter_is_open(args: Seq<Seq<char>>) -> bool {
    args.len() > 0 && args.last() == "--filter"@ && !is_filter_value(args, args.len() - 1)
}

/// What a command line asks for: one directory at most, the current one where none is given; the
/// options in any order; the last filter. A second directory and a filter without its text are
/// errors, the former first.
pub open spec fn requested(args: Seq<Seq<char>>) -> Result<OptionsView, Seq<char>> {
    let n = args.len() as int;
    let dirs = positionals(args, n);
    if dirs.len() > 1 {
        Err("unexpected positional argument: "@ + dirs[1])
    } else if filter_is_open(args) {
        Err("--filter requires an argument"@)
    } else {
        Ok(
            OptionsView {
                corpus_dir: if dirs.len() == 0 {
                    "."@
                } else {
                    dirs[0]
                },
                update: option_given(args, n, "--update"@),
                exact: option_given(args, n, "--exact"@),
                filter: last_filter(args, n),
                help: option_given(args, n, "--help"@) || option_given(args, n, "-h"@),
            },
        )
    }
}

proof fn lemma_positionals_grow(args: Seq<Seq<char>>, m: int, n: int)
    requires
        0 <= m <= n,
    ensures
        positionals(args, m).len() <= positionals(args, n).len(),
        positionals(args, n).take(positionals(args, m).len() as int) == positionals(args, m),
    decreases n - m,
{
    if m < n {
        lemma_positionals_grow(args, m, n - 1);
        let short = positionals(args, m);
        assert(positionals(args, n).take(short.len() as int) =~= positionals(args, n - 1).take(
            short.len() as int,
        ));
    } else {
        assert(positionals(args, n).take(positionals(args, m).len() as int) =~= positionals(args, m));
    }
}

proof fn lemma_option_given_step(args: Seq<Seq<char>>, n: int, option: Seq<char>)
    requires
        0 <= n,
    ensures
        option_given(args, n + 1, option) <==> option_given(args, n, option) || (args[n] == option
            && !is_filter_value(args, n)),
{
    if option_given(args, n + 1, option) {
        let i = choose|i: int|
            0 <= i < n + 1 && #[trigger] args[i] == option && !is_filter_value(args, i);
        if i < n {
            assert(option_given(args, n, option));
        }
    }
    if option_given(args, n, option) {
        let i = choose|i: int|
            0 <= i < n && #[trigger] args[i] == option && !is_filter_value(args, i);
        assert(option_given(args, n + 1, option));
    }
    if args[n] == option && !is_filter_value(args, n) {
        assert(option_given(args, n + 1, option));
    }
}

pub proof fn lemma_steps(args: Seq<Seq<char>>, n: int)
    requires
        0 <= n,
    ensures
        forall|option: Seq<char>| #[trigger]
            option_given(args, n + 1, option) <==> option_given(args, n, option) || (args[n]
                == option && !is_filter_value(args, n)),
{
    assert forall|option: Seq<char>| #[trigger]
        option_given(args, n + 1, option) <==> option_given(args, n, option) || (args[n] == option
            && !is_filter_value(args, n)) by {
        lemma_option_given_step(args, n, option);
    }
}

pub proof fn lemma_options_differ()
    ensures
        "--help"@ != "--update"@,
        "--help"@ != "--exact"@,
        "--help"@ != "--filter"@,
        "--help"@ != "-h"@,
        "-h"@ != "--update"@,
        "-h"@ != "--exact"@,
        "-h"@ != "--filter"@,
        "--update"@ != "--exact"@,
        "--update"@ != "--filter"@,
        "--exact"@ != "--filter"@,
{
    reveal_strlit("--help");
    reveal_strlit("-h");
    reveal_strlit("--update");
    reveal_strlit("--exact");
    reveal_strlit("--filter");
    assert("--help"@[2] == 'h');
    assert("--update"@[2] == 'u');
    assert("--exact"@[2] == 'e');
    assert("--filter"@[2] == 'f');
    assert("-h"@.len() == 2);
}

impl Options {
    /// Reads the command line.
    pub fn parse(argv: &[String]) -> (options: Result<Options, String>)
        ensures
            match (options, requested(texts(argv@))) {
                (Ok(read), Ok(expected)) => read@ == expected,
                (Err(message), Err(expected)) => message@ == expected,
                _ => false,
            },
    {
        let ghost args = texts(argv@);
        let mut corpus_dir: Option<String> = None;
        let mut update: bool = false;
        let mut exact: bool = false;
        let mut filter: Option<String> = None;
        let mut help: bool = false;
        let mut i: usize = 0;
        while i < argv.len()
            invariant
                i <= argv@.len(),
                args == texts(argv@),
                !is_filter_value(args, i as int),
                positionals(args, i as int).len() <= 1,
                corpus_dir is Some <==> positionals(args, i as int).len() == 1,
                corpus_dir matches Some(dir) ==> dir@ == positionals(args, i as int)[0],
                update == option_given(args, i as int, "--update"@),
                exact == option_given(args, i as int, "--exact"@),
                help == (option_given(args, i as int, "--help"@) || option_given(
                    args,
                    i as int,
                    "-h"@,
                )),
                text_view(filter) == last_filter(args, i as int),
                i == argv@.len() ==> !filter_is_open(args),
            decreases argv@.len() - i,
        {
            let arg: &str = argv[i].as_str();
            assert(arg@ == args[i as int]);
            proof {
                lemma_options_differ();
                lemma_steps(args, i as int);
            }
            if same_text(arg, "--help") || same_text(arg, "-h") {
                help = true;
            } else if same_text(arg, "--update") {
                update = true;
            } else if same_text(arg, "--exact") {
                exact = true;
            } else if same_text(arg, "--filter") {
                i = i + 1;
                if i >= argv.len() {
                    proof {
                        assert(filter_is_open(args));
                    }
                    return Err("--filter requires an argument".to_owned());
                }
                proof {
                    lemma_steps(args, i as int);
                }
                assert(is_filter_value(args, i as int));
                assert(positionals(args, i as int) == positionals(args, i - 1));
                filter = Some(argv[i].clone());
            } else {
                if corpus_dir.is_some() {
                    proof {
                        lemma_positionals_grow(args, i + 1, args.len() as int);
                        let now = positionals(args, i + 1);
                        let all = positionals(args, args.len() as int);
                        assert(all.take(now.len() as int)[1] == all[1]);
                    }
                    let mut message: String = "unexpected positional argument: ".to_owned();
                    message.append(arg);
                    return Err(message);
                }
                corpus_dir = Some(arg.to_owned());
            }
            i = i + 1;
        }
        let dir: String = match corpus_dir {
            Some(dir) => dir,
            None => ".".to_owned(),
        };
        Ok(Options { corpus_dir: dir, update, exact, filter, help })
    }
}

} // verus!
