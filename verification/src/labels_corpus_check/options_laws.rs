//! What holds of the options on the command line of the corpus check.

use vstd::prelude::*;
use vstd::seq_lib::to_multiset_build;
use vstd::seq_lib::to_multiset_contains;

use crate::labels_corpus_check::options::filter_is_open;
use crate::labels_corpus_check::options::is_filter_value;
use crate::labels_corpus_check::options::is_option;
use crate::labels_corpus_check::options::last_filter;
use crate::labels_corpus_check::options::lemma_options_differ;
use crate::labels_corpus_check::options::lemma_steps;
use crate::labels_corpus_check::options::option_given;
use crate::labels_corpus_check::options::positionals;
use crate::labels_corpus_check::options::requested;
use crate::labels_corpus_check::options::Options;
use crate::labels_corpus_check::options::OptionsView;

verus! {

/// The first `n` arguments in groups: each `--filter` together with its text, and every other
/// argument by itself.
pub open spec fn groups(args: Seq<Seq<char>>, n: int) -> Seq<Seq<Seq<char>>>
    decreases n,
{
    if n <= 0 {
        Seq::empty()
    } else if is_filter_value(args, n - 1) {
        groups(args, n - 2).push(seq![args[n - 2], args[n - 1]])
    } else {
        groups(args, n - 1).push(seq![args[n - 1]])
    }
}

/// Whether a group is a switch: an option that stands for itself.
pub open spec fn is_switch(group: Seq<Seq<char>>) -> bool {
    group.len() == 1 && is_option(group[0]) && group[0] != "--filter"@
}

/// Whether a group is a directory.
pub open spec fn is_directory(group: Seq<Seq<char>>) -> bool {
    group.len() == 1 && !is_option(group[0])
}

/// Whether a group is a filter with its text.
pub open spec fn is_filter(group: Seq<Seq<char>>) -> bool {
    group.len() == 2
}

/// The groups of one kind, in their order.
pub open spec fn picked(
    list: Seq<Seq<Seq<char>>>,
    kind: spec_fn(Seq<Seq<char>>) -> bool,
) -> Seq<Seq<Seq<char>>>
    decreases list.len(),
{
    if list.len() == 0 {
        Seq::empty()
    } else if kind(list.last()) {
        picked(list.drop_last(), kind).push(list.last())
    } else {
        picked(list.drop_last(), kind)
    }
}

/// The groups that are directories.
pub open spec fn directories(list: Seq<Seq<Seq<char>>>) -> Seq<Seq<Seq<char>>> {
    picked(list, |group: Seq<Seq<char>>| is_directory(group))
}

/// The groups that are filters with their texts.
pub open spec fn filters(list: Seq<Seq<Seq<char>>>) -> Seq<Seq<Seq<char>>> {
    picked(list, |group: Seq<Seq<char>>| is_filter(group))
}

proof fn lemma_contains_after_push<T>(list: Seq<T>, last: T, x: T)
    ensures
        list.push(last).contains(x) <==> list.contains(x) || x == last,
{
    let all = list.push(last);
    if list.contains(x) {
        let i = choose|i: int| 0 <= i < list.len() && list[i] == x;
        assert(all[i] == x);
    }
    if x == last {
        assert(all[list.len() as int] == x);
    }
    if all.contains(x) {
        let i = choose|i: int| 0 <= i < all.len() && all[i] == x;
        if i < list.len() {
            assert(list[i] == x);
        }
    }
}

/// A switch is given exactly if it is one of the groups.
proof fn lemma_switch_is_a_group(args: Seq<Seq<char>>, n: int, option: Seq<char>)
    requires
        0 <= n <= args.len(),
    ensures
        !(n < args.len() && is_filter_value(args, n)) ==> (option != "--filter"@ ==> (
        option_given(args, n, option) <==> groups(args, n).contains(seq![option]))),
    decreases n,
{
    if n == 0 {
        assert(!groups(args, n).contains(seq![option]));
    } else if option != "--filter"@ {
        lemma_steps(args, n - 1);
        if is_filter_value(args, n - 1) {
            lemma_steps(args, n - 2);
            lemma_switch_is_a_group(args, n - 2, option);
            let last = seq![args[n - 2], args[n - 1]];
            lemma_contains_after_push(groups(args, n - 2), last, seq![option]);
            assert(last.len() == 2 && seq![option].len() == 1);
        } else {
            lemma_switch_is_a_group(args, n - 1, option);
            let last = seq![args[n - 1]];
            lemma_contains_after_push(groups(args, n - 1), last, seq![option]);
            assert(last == seq![option] <==> args[n - 1] == option) by {
                assert(last[0] == args[n - 1] && seq![option][0] == option);
            }
        }
    }
}

/// The directories are the groups that are directories.
proof fn lemma_directories(args: Seq<Seq<char>>, n: int)
    requires
        0 <= n <= args.len(),
    ensures
        positionals(args, n).len() == directories(groups(args, n)).len(),
        forall|i: int|
            0 <= i < positionals(args, n).len() ==> #[trigger] directories(groups(args, n))[i]
                == seq![positionals(args, n)[i]],
    decreases n,
{
    if n > 0 {
        let all = groups(args, n);
        if is_filter_value(args, n - 1) {
            lemma_directories(args, n - 2);
            assert(all.drop_last() =~= groups(args, n - 2));
            assert(positionals(args, n) == positionals(args, n - 1));
            assert(positionals(args, n - 1) == positionals(args, n - 2));
        } else {
            lemma_directories(args, n - 1);
            assert(all.drop_last() =~= groups(args, n - 1));
        }
    }
}

/// The last filter is that of the last group that is a filter.
proof fn lemma_last_filter(args: Seq<Seq<char>>, n: int)
    requires
        0 <= n <= args.len(),
    ensures
        last_filter(args, n) is None <==> filters(groups(args, n)).len() == 0,
        last_filter(args, n) matches Some(text) ==> filters(groups(args, n)).last()[1] == text,
    decreases n,
{
    if n > 0 {
        let all = groups(args, n);
        if is_filter_value(args, n - 1) {
            assert(all.drop_last() =~= groups(args, n - 2));
        } else {
            lemma_last_filter(args, n - 1);
            assert(all.drop_last() =~= groups(args, n - 1));
        }
    }
}

/// Only a filter without its text is a group of `--filter` alone, and it is the last one.
proof fn lemma_open_filter(args: Seq<Seq<char>>, n: int)
    requires
        0 <= n <= args.len(),
    ensures
        groups(args, n).contains(seq!["--filter"@]) <==> n > 0 && args[n - 1] == "--filter"@
            && !is_filter_value(args, n - 1),
    decreases n,
{
    let open = seq!["--filter"@];
    if n == 0 {
        assert(!groups(args, n).contains(open));
    } else if is_filter_value(args, n - 1) {
        lemma_open_filter(args, n - 2);
        lemma_contains_after_push(groups(args, n - 2), seq![args[n - 2], args[n - 1]], open);
        assert(seq![args[n - 2], args[n - 1]].len() == 2 && open.len() == 1);
        assert(!is_filter_value(args, n - 2));
    } else {
        lemma_open_filter(args, n - 1);
        lemma_contains_after_push(groups(args, n - 1), seq![args[n - 1]], open);
        assert(seq![args[n - 1]] == open <==> args[n - 1] == "--filter"@) by {
            assert(seq![args[n - 1]][0] == args[n - 1] && open[0] == "--filter"@);
        }
    }
}

/// Where all groups of a kind are the same group, as many of them are picked as there are.
proof fn lemma_picked_are_counted(
    list: Seq<Seq<Seq<char>>>,
    kind: spec_fn(Seq<Seq<char>>) -> bool,
    group: Seq<Seq<char>>,
)
    requires
        kind(group),
        forall|i: int| 0 <= i < list.len() && kind(#[trigger] list[i]) ==> list[i] == group,
    ensures
        picked(list, kind).len() == list.to_multiset().count(group),
        forall|i: int| 0 <= i < picked(list, kind).len() ==> #[trigger] picked(list, kind)[i]
            == group,
    decreases list.len(),
{
    if list.len() == 0 {
        to_multiset_contains(list, group);
    } else {
        let front = list.drop_last();
        let last = list.last();
        assert(last == list[list.len() - 1]);
        assert forall|i: int| 0 <= i < front.len() && kind(#[trigger] front[i]) implies front[i]
            == group by {
            assert(front[i] == list[i]);
        }
        lemma_picked_are_counted(front, kind, group);
        assert(front.push(last) =~= list);
        to_multiset_build(front, last);
    }
}

/// What is picked are the groups of the kind.
proof fn lemma_picked(
    list: Seq<Seq<Seq<char>>>,
    kind: spec_fn(Seq<Seq<char>>) -> bool,
    group: Seq<Seq<char>>,
)
    ensures
        picked(list, kind).contains(group) <==> list.contains(group) && kind(group),
    decreases list.len(),
{
    if list.len() > 0 {
        let front = list.drop_last();
        lemma_picked(front, kind, group);
        assert(front.push(list.last()) =~= list);
        lemma_contains_after_push(front, list.last(), group);
        lemma_contains_after_push(picked(front, kind), list.last(), group);
    } else {
        assert(!picked(list, kind).contains(group));
        assert(!list.contains(group));
    }
}

/// Lists with as many of each group of a kind have the same ones picked, if there is at most one.
proof fn lemma_same_picked(
    list: Seq<Seq<Seq<char>>>,
    other: Seq<Seq<Seq<char>>>,
    kind: spec_fn(Seq<Seq<char>>) -> bool,
)
    requires
        picked(list, kind).len() <= 1,
        forall|group: Seq<Seq<char>>| #[trigger]
            kind(group) ==> list.to_multiset().count(group) == other.to_multiset().count(group),
    ensures
        picked(list, kind) == picked(other, kind),
{
    let a = picked(list, kind);
    let b = picked(other, kind);
    assert forall|group: Seq<Seq<char>>| #[trigger] kind(group) implies (list.contains(group)
        <==> other.contains(group)) by {
        to_multiset_contains(list, group);
        to_multiset_contains(other, group);
    }
    if a.len() == 0 {
        if b.len() > 0 {
            assert(b.contains(b[0]));
            lemma_picked(other, kind, b[0]);
            lemma_picked(list, kind, b[0]);
        }
        assert(a =~= b);
    } else {
        let group = a[0];
        assert(a.contains(group));
        lemma_picked(list, kind, group);
        assert forall|i: int| 0 <= i < list.len() && kind(#[trigger] list[i]) implies list[i]
            == group by {
            assert(list.contains(list[i]));
            lemma_picked(list, kind, list[i]);
            let j = choose|j: int| 0 <= j < a.len() && a[j] == list[i];
            assert(j == 0);
        }
        assert forall|i: int| 0 <= i < other.len() && kind(#[trigger] other[i]) implies other[i]
            == group by {
            assert(other.contains(other[i]));
            assert(list.contains(other[i]));
            lemma_picked(list, kind, other[i]);
            let j = choose|j: int| 0 <= j < a.len() && a[j] == other[i];
            assert(j == 0);
        }
        lemma_picked_are_counted(list, kind, group);
        lemma_picked_are_counted(other, kind, group);
        assert(a =~= b);
    }
}

/// Position and repetition of the switches do not matter, nor does the place of the directory and
/// of the filter. Two command lines that hold the same groups ask for the same, where the first one
/// is taken and gives at most one filter; a switch may come more often in one than in the other.
pub proof fn law_options_may_stand_anywhere(args: Seq<Seq<char>>, other: Seq<Seq<char>>)
    requires
        requested(args) is Ok,
        filters(groups(args, args.len() as int)).len() <= 1,
        forall|group: Seq<Seq<char>>| #[trigger]
            is_switch(group) ==> (groups(args, args.len() as int).contains(group) <==> groups(
                other,
                other.len() as int,
            ).contains(group)),
        forall|group: Seq<Seq<char>>|
            !#[trigger] is_switch(group) ==> groups(
                args,
                args.len() as int,
            ).to_multiset().count(group) == groups(other, other.len() as int).to_multiset().count(
                group,
            ),
    ensures
        requested(other) == requested(args),
{
    let n = args.len() as int;
    let m = other.len() as int;
    let g = groups(args, n);
    let h = groups(other, m);
    lemma_options_differ();
    lemma_directories(args, n);
    lemma_directories(other, m);
    let directory = |group: Seq<Seq<char>>| is_directory(group);
    let filter = |group: Seq<Seq<char>>| is_filter(group);
    assert forall|group: Seq<Seq<char>>| #[trigger] directory(group) implies g.to_multiset().count(
        group,
    ) == h.to_multiset().count(group) by {
        assert(!is_switch(group));
    }
    assert forall|group: Seq<Seq<char>>| #[trigger] filter(group) implies g.to_multiset().count(
        group,
    ) == h.to_multiset().count(group) by {
        assert(!is_switch(group));
    }
    lemma_same_picked(g, h, directory);
    lemma_same_picked(g, h, filter);
    let p = positionals(args, n);
    let q = positionals(other, m);
    assert(p =~= q) by {
        assert forall|i: int| 0 <= i < p.len() implies p[i] == q[i] by {
            assert(directories(g)[i] == directories(h)[i]);
            assert(directories(g)[i][0] == p[i]);
            assert(directories(h)[i][0] == q[i]);
        }
    }
    lemma_last_filter(args, n);
    lemma_last_filter(other, m);
    assert(last_filter(args, n) == last_filter(other, m));
    let open = seq!["--filter"@];
    lemma_open_filter(args, n);
    lemma_open_filter(other, m);
    assert(!is_switch(open));
    to_multiset_contains(g, open);
    to_multiset_contains(h, open);
    assert(!filter_is_open(args));
    assert(!filter_is_open(other));
    lemma_same_switch(args, other, "--update"@);
    lemma_same_switch(args, other, "--exact"@);
    lemma_same_switch(args, other, "--help"@);
    lemma_same_switch(args, other, "-h"@);
}

proof fn lemma_same_switch(args: Seq<Seq<char>>, other: Seq<Seq<char>>, option: Seq<char>)
    requires
        is_option(option),
        option != "--filter"@,
        forall|group: Seq<Seq<char>>| #[trigger]
            is_switch(group) ==> (groups(args, args.len() as int).contains(group) <==> groups(
                other,
                other.len() as int,
            ).contains(group)),
    ensures
        option_given(args, args.len() as int, option) <==> option_given(
            other,
            other.len() as int,
            option,
        ),
{
    lemma_switch_is_a_group(args, args.len() as int, option);
    lemma_switch_is_a_group(other, other.len() as int, option);
    assert(is_switch(seq![option]));
}

/// Whether a group can stand on a command line: a `--filter` with its text, or another argument.
pub open spec fn is_group(group: Seq<Seq<char>>) -> bool {
    ||| group.len() == 1 && group[0] != "--filter"@
    ||| group.len() == 2 && group[0] == "--filter"@
}

/// The arguments of a list of groups, one after the other.
pub open spec fn joined(list: Seq<Seq<Seq<char>>>) -> Seq<Seq<char>>
    decreases list.len(),
{
    if list.len() == 0 {
        Seq::empty()
    } else {
        joined(list.drop_last()) + list.last()
    }
}

/// How the first arguments are grouped does not depend on what follows them.
proof fn lemma_groups_of_start(a: Seq<Seq<char>>, b: Seq<Seq<char>>, n: int)
    requires
        0 <= n <= a.len(),
        n <= b.len(),
        forall|i: int| 0 <= i < n ==> a[i] == b[i],
    ensures
        groups(a, n) == groups(b, n),
        is_filter_value(a, n) == is_filter_value(b, n),
    decreases n,
{
    if n > 0 {
        lemma_groups_of_start(a, b, n - 1);
        if n > 1 {
            lemma_groups_of_start(a, b, n - 2);
        }
    }
}

/// The arguments of a list of groups are cut into these groups again.
proof fn lemma_joined_groups(list: Seq<Seq<Seq<char>>>)
    requires
        forall|i: int| 0 <= i < list.len() ==> is_group(#[trigger] list[i]),
    ensures
        groups(joined(list), joined(list).len() as int) == list,
        !is_filter_value(joined(list), joined(list).len() as int),
    decreases list.len(),
{
    if list.len() == 0 {
        assert(groups(joined(list), 0) =~= list);
    } else {
        let front = list.drop_last();
        let last = list.last();
        assert(is_group(list[list.len() - 1]));
        assert forall|i: int| 0 <= i < front.len() implies is_group(#[trigger] front[i]) by {
            assert(front[i] == list[i]);
        }
        lemma_joined_groups(front);
        let start = joined(front);
        let args = joined(list);
        let k = start.len() as int;
        lemma_groups_of_start(start, args, k);
        assert(args[k] == last[0]);
        assert(!is_filter_value(args, k));
        assert(front.push(last) =~= list);
        if last.len() == 1 {
            assert(groups(args, k + 1) == front.push(seq![args[k]]));
            assert(seq![args[k]] =~= last);
        } else {
            assert(args[k + 1] == last[1]);
            assert(is_filter_value(args, k + 1));
            assert(groups(args, k + 2) == front.push(seq![args[k], args[k + 1]]));
            assert(seq![args[k], args[k + 1]] =~= last);
        }
    }
}

/// A command line that is taken and gives at most one filter asks for the same when its groups are
/// permuted, or when switches that it holds are repeated.
pub proof fn law_order_of_groups_is_irrelevant(
    list: Seq<Seq<Seq<char>>>,
    other: Seq<Seq<Seq<char>>>,
)
    requires
        forall|i: int| 0 <= i < list.len() ==> is_group(#[trigger] list[i]),
        forall|i: int| 0 <= i < other.len() ==> is_group(#[trigger] other[i]),
        requested(joined(list)) is Ok,
        filters(list).len() <= 1,
        forall|group: Seq<Seq<char>>| #[trigger]
            is_switch(group) ==> (list.contains(group) <==> other.contains(group)),
        forall|group: Seq<Seq<char>>|
            !#[trigger] is_switch(group) ==> list.to_multiset().count(group)
                == other.to_multiset().count(group),
    ensures
        requested(joined(other)) == requested(joined(list)),
{
    lemma_joined_groups(list);
    lemma_joined_groups(other);
    law_options_may_stand_anywhere(joined(list), joined(other));
}

/// Five words are options, and every other one is a directory or the text of a filter.
pub proof fn law_options_are_five_words(arg: Seq<char>)
    ensures
        is_option(arg) <==> arg == "--help"@ || arg == "-h"@ || arg == "--update"@ || arg
            == "--exact"@ || arg == "--filter"@,
{
}

/// A command line made of groups asks for the directory among them, or the current one where there
/// is none, for what its switches say, and for the last filter. A second directory is an error.
pub proof fn law_groups_say_what_is_asked_for(list: Seq<Seq<Seq<char>>>)
    requires
        forall|i: int| 0 <= i < list.len() ==> is_group(#[trigger] list[i]),
    ensures
        directories(list).len() > 1 ==> requested(joined(list)) == Err::<OptionsView, Seq<char>>(
            "unexpected positional argument: "@ + directories(list)[1][0],
        ),
        directories(list).len() <= 1 ==> requested(joined(list)) == Ok::<OptionsView, Seq<char>>(
            OptionsView {
                corpus_dir: if directories(list).len() == 0 {
                    "."@
                } else {
                    directories(list)[0][0]
                },
                update: list.contains(seq!["--update"@]),
                exact: list.contains(seq!["--exact"@]),
                filter: if filters(list).len() == 0 {
                    None
                } else {
                    Some(filters(list).last()[1])
                },
                help: list.contains(seq!["--help"@]) || list.contains(seq!["-h"@]),
            },
        ),
{
    let args = joined(list);
    let n = args.len() as int;
    let open = seq!["--filter"@];
    lemma_options_differ();
    lemma_joined_groups(list);
    lemma_directories(args, n);
    lemma_last_filter(args, n);
    lemma_switch_is_a_group(args, n, "--update"@);
    lemma_switch_is_a_group(args, n, "--exact"@);
    lemma_switch_is_a_group(args, n, "--help"@);
    lemma_switch_is_a_group(args, n, "-h"@);
    lemma_open_filter(args, n);
    if list.contains(open) {
        let i = choose|i: int| 0 <= i < list.len() && list[i] == open;
        assert(is_group(list[i]));
        assert(open[0] == "--filter"@);
    }
    assert(!filter_is_open(args));
    let dirs = directories(list);
    let p = positionals(args, n);
    if dirs.len() > 0 {
        assert(dirs[0] == seq![p[0]]);
        assert(dirs[0][0] == p[0]);
    }
    if dirs.len() > 1 {
        assert(dirs[1] == seq![p[1]]);
        assert(dirs[1][0] == p[1]);
    }
}

/// A command line that ends in a `--filter` without its text is refused.
pub proof fn law_filters_need_a_text(list: Seq<Seq<Seq<char>>>)
    requires
        forall|i: int| 0 <= i < list.len() ==> is_group(#[trigger] list[i]),
        directories(list).len() <= 1,
    ensures
        requested(joined(list).push("--filter"@)) == Err::<OptionsView, Seq<char>>(
            "--filter requires an argument"@,
        ),
{
    let start = joined(list);
    let args = start.push("--filter"@);
    let k = start.len() as int;
    lemma_joined_groups(list);
    lemma_groups_of_start(start, args, k);
    lemma_directories(args, k);
    assert(args[k] == "--filter"@);
    assert(!is_filter_value(args, k));
    assert(filter_is_open(args));
    assert(positionals(args, k + 1) == positionals(args, k));
}

/// What is asked for is shown field by field.
pub proof fn law_options_show_each_field(options: Options)
    ensures
        options@.corpus_dir == options.corpus_dir@,
        options@.update == options.update,
        options@.exact == options.exact,
        options@.help == options.help,
        options.filter is None ==> options@.filter is None,
        options.filter matches Some(text) ==> options@.filter == Some(text@),
{
}

} // verus!
