//! What a corpus check makes of a capture, and what it says in the end.

use vstd::prelude::*;

use crate::json::same_json;
use crate::json::JsonView;
use crate::labels_corpus_check::diff::all_printable;
use crate::labels_corpus_check::diff::diff_line;
use crate::labels_corpus_check::diff::diff_lines;
use crate::labels_corpus_check::diff::exact_differences;
use crate::labels_corpus_check::diff::structural_differences;
use crate::labels_corpus_check::diff::DiffView;
use crate::labels_corpus_check::diff_laws::has_sorted_members;
use crate::labels_corpus_check::diff_laws::law_exact_is_empty_iff_same;
use crate::labels_corpus_check::harness::after_check;
use crate::labels_corpus_check::harness::check_is_printable;
use crate::labels_corpus_check::harness::checked_line;
use crate::labels_corpus_check::harness::closing;
use crate::labels_corpus_check::harness::detail_block;
use crate::labels_corpus_check::harness::fail_line;
use crate::labels_corpus_check::harness::indented;
use crate::labels_corpus_check::harness::joined;
use crate::labels_corpus_check::harness::nothing_found;
use crate::labels_corpus_check::harness::regression_message;
use crate::labels_corpus_check::harness::Harness;
use crate::labels_corpus_check::harness::HarnessView;
use crate::text::decimal;
use crate::text::occurs;
use crate::text::padded_right;
use crate::text_laws::law_parts_occur;

verus! {

/// In the strict comparison, a capture passes exactly if its snapshot and its analysis are equal,
/// in every member, and fails otherwise.
pub proof fn law_exact_check_passes_iff_equal(
    harness: HarnessView,
    basename: Seq<char>,
    want: JsonView,
    current: JsonView,
)
    requires
        has_sorted_members(want),
        has_sorted_members(current),
    ensures
        same_json(want, current) ==> after_check(harness, basename, Ok(want), current, true) == (
        HarnessView { pass: harness.pass + 1, ..harness }),
        !same_json(want, current) ==> after_check(
            harness,
            basename,
            Ok(want),
            current,
            true,
        ).fail == harness.fail + 1 && after_check(harness, basename, Ok(want), current, true).pass
            == harness.pass,
{
    law_exact_is_empty_iff_same(want, current);
}

/// What is found is counted: nothing in the comparison that was asked for makes a capture pass, and
/// anything makes it fail, with a block of details that is kept behind the others.
pub proof fn law_check_counts_what_is_found(
    harness: HarnessView,
    basename: Seq<char>,
    want: JsonView,
    current: JsonView,
    exact: bool,
)
    ensures
        ({
            let diffs = if exact {
                exact_differences(want, current)
            } else {
                structural_differences(want, current)
            };
            let after = after_check(harness, basename, Ok(want), current, exact);
            &&& diffs.len() == 0 ==> after == (HarnessView { pass: harness.pass + 1, ..harness })
            &&& diffs.len() > 0 ==> after == (HarnessView {
                fail: harness.fail + 1,
                details: harness.details.push(detail_block(basename, diffs)),
                ..harness
            })
            &&& check_is_printable(Ok(want), current, exact) <==> all_printable(diffs)
        }),
{
}

/// A snapshot that cannot be read makes a capture fail, without details.
pub proof fn law_unreadable_snapshots_fail(
    harness: HarnessView,
    basename: Seq<char>,
    snapshot_path: Seq<char>,
    error: Seq<char>,
    current: JsonView,
    exact: bool,
)
    ensures
        after_check(harness, basename, Err(error), current, exact) == (HarnessView {
            fail: harness.fail + 1,
            ..harness
        }),
        check_is_printable(Err(error), current, exact),
        checked_line(basename, snapshot_path, Err(error), current, exact) == "FAIL "@
            + padded_right(basename, 24) + " ("@ + ("snapshot parse error in "@ + snapshot_path
            + ": "@ + error) + ")"@,
{
}

/// A capture that could not be analyzed counts as failed, one without a snapshot as missing, and one
/// whose snapshot was written as neither.
pub proof fn law_each_outcome_has_its_count(harness: HarnessView)
    ensures
        harness.after_failure() == (HarnessView { fail: harness.fail + 1, ..harness }),
        harness.after_miss() == (HarnessView { no_snapshot: harness.no_snapshot + 1, ..harness }),
        harness.after_update() == (HarnessView { updated: harness.updated + 1, ..harness }),
        harness.seen() == harness.pass + harness.fail + harness.no_snapshot + harness.updated,
{
}

/// The line on a capture that was compared says `PASS` where nothing was found, and otherwise `FAIL`
/// with the number of differences.
pub proof fn law_line_says_pass_or_fail(
    basename: Seq<char>,
    snapshot_path: Seq<char>,
    want: JsonView,
    current: JsonView,
    exact: bool,
)
    ensures
        ({
            let diffs = if exact {
                exact_differences(want, current)
            } else {
                structural_differences(want, current)
            };
            let line = checked_line(basename, snapshot_path, Ok(want), current, exact);
            &&& diffs.len() == 0 ==> line == "PASS "@ + basename
            &&& diffs.len() == 1 ==> line == "FAIL "@ + padded_right(basename, 24) + " ("@ + (
            decimal(1) + " diff"@) + ")"@
            &&& diffs.len() > 1 ==> line == "FAIL "@ + padded_right(basename, 24) + " ("@ + (
            decimal(diffs.len()) + " diff"@ + "s"@) + ")"@
        }),
{
    let one = decimal(1) + " diff"@;
    assert(one + Seq::<char>::empty() =~= one);
}

/// The line on a capture that failed names it and gives the reason.
pub proof fn law_fail_line_names_the_capture(basename: Seq<char>, reason: Seq<char>)
    ensures
        fail_line(basename, reason) == "FAIL "@ + padded_right(basename, 24) + " ("@ + reason
            + ")"@,
{
}

/// The details of a capture start with its name, and hold a line for every difference.
pub proof fn law_details_hold_every_difference(
    basename: Seq<char>,
    diffs: Seq<DiffView>,
    i: int,
)
    requires
        0 <= i < diffs.len(),
    ensures
        occurs(detail_block(basename, diffs), "  --- "@ + basename + " ---\n"@),
        occurs(detail_block(basename, diffs), "  "@ + diff_line(diffs[i]) + "\n"@),
{
    let head = "  --- "@ + basename + " ---\n"@;
    let lines = diff_lines(diffs);
    let body = indented(lines);
    let empty = Seq::<char>::empty();
    assert(detail_block(basename, diffs) =~= empty + head + body);
    law_parts_occur(empty, head, body);
    let (before, after) = lemma_line_is_indented(lines, i);
    let line = "  "@ + lines[i] + "\n"@;
    assert(detail_block(basename, diffs) =~= (head + before) + line + after);
    law_parts_occur(head + before, line, after);
}

proof fn lemma_line_is_indented(lines: Seq<Seq<char>>, i: int) -> (split: (Seq<char>, Seq<char>))
    requires
        0 <= i < lines.len(),
    ensures
        indented(lines) == split.0 + ("  "@ + lines[i] + "\n"@) + split.1,
    decreases lines.len(),
{
    let front = lines.drop_last();
    let last = "  "@ + lines.last() + "\n"@;
    assert(indented(lines) =~= indented(front) + last);
    if i < front.len() {
        let (before, after) = lemma_line_is_indented(front, i);
        assert(front[i] == lines[i]);
        let line = "  "@ + lines[i] + "\n"@;
        assert(indented(lines) =~= before + line + (after + last));
        (before, after + last)
    } else {
        let empty = Seq::<char>::empty();
        assert(indented(lines) =~= indented(front) + last + empty);
        (indented(front), empty)
    }
}

proof fn lemma_block_is_joined(blocks: Seq<Seq<char>>, i: int) -> (split: (Seq<char>, Seq<char>))
    requires
        0 <= i < blocks.len(),
    ensures
        joined(blocks) == split.0 + blocks[i] + split.1,
    decreases blocks.len(),
{
    let front = blocks.drop_last();
    if i < front.len() {
        let (before, after) = lemma_block_is_joined(front, i);
        assert(front[i] == blocks[i]);
        assert(joined(blocks) =~= before + blocks[i] + (after + blocks.last()));
        (before, after + blocks.last())
    } else {
        let empty = Seq::<char>::empty();
        assert(joined(blocks) =~= joined(front) + blocks[i] + empty);
        (joined(front), empty)
    }
}

/// What is printed in the end gives the counts of all kinds and of all captures, and the details of
/// every capture that has some.
pub proof fn law_closing_gives_counts_and_details(harness: HarnessView)
    ensures
        occurs(
            closing(harness),
            "\nSummary: "@ + decimal(harness.pass) + " pass, "@ + decimal(harness.fail) + " fail, "@
                + decimal(harness.no_snapshot) + " missing snapshot ("@ + decimal(harness.total)
                + " total)\n"@,
        ),
        forall|i: int|
            0 <= i < harness.details.len() ==> occurs(
                closing(harness),
                #[trigger] harness.details[i],
            ),
        harness.details.len() == 0 ==> closing(harness) == "\nSummary: "@ + decimal(harness.pass)
            + " pass, "@ + decimal(harness.fail) + " fail, "@ + decimal(harness.no_snapshot)
            + " missing snapshot ("@ + decimal(harness.total) + " total)\n"@,
{
    let text = closing(harness);
    let summary = "\nSummary: "@ + decimal(harness.pass) + " pass, "@ + decimal(harness.fail)
        + " fail, "@ + decimal(harness.no_snapshot) + " missing snapshot ("@ + decimal(
        harness.total,
    ) + " total)\n"@;
    reveal_strlit("\n");
    reveal_strlit("Summary: ");
    reveal_strlit("\nSummary: ");
    reveal_strlit(" total)");
    reveal_strlit(" total)\n");
    assert("\nSummary: "@ =~= "\n"@ + "Summary: "@);
    assert(" total)\n"@ =~= " total)"@ + "\n"@);
    let empty = Seq::<char>::empty();
    let rest = if harness.details.len() == 0 {
        empty
    } else {
        "\n"@ + joined(harness.details)
    };
    assert(text =~= empty + summary + rest);
    assert(empty + summary + empty =~= summary);
    law_parts_occur(empty, summary, rest);
    assert forall|i: int| 0 <= i < harness.details.len() implies occurs(
        text,
        #[trigger] harness.details[i],
    ) by {
        let (before, after) = lemma_block_is_joined(harness.details, i);
        let head = summary + "\n"@ + before;
        assert(text =~= head + harness.details[i] + after);
        law_parts_occur(head, harness.details[i], after);
    }
}

/// The error with which a check ends gives the number of captures that failed.
pub proof fn law_error_gives_the_number_of_failures(fail: nat, dir: Seq<char>)
    ensures
        fail == 1 ==> regression_message(fail) == decimal(1) + " regression"@,
        fail > 1 ==> regression_message(fail) == decimal(fail) + " regression"@ + "s"@,
        nothing_found(dir) == "no disc captures (*.bin or *.iso) found under "@ + dir,
{
    let one = decimal(1) + " regression"@;
    assert(one + Seq::<char>::empty() =~= one);
}

/// The counts are shown as they are.
pub proof fn law_harness_shows_each_count(harness: Harness)
    ensures
        harness@.total == harness.total,
        harness@.pass == harness.pass,
        harness@.fail == harness.fail,
        harness@.no_snapshot == harness.no_snapshot,
        harness@.updated == harness.updated,
        harness@.details.len() == harness.details@.len(),
        forall|i: int|
            0 <= i < harness.details@.len() ==> harness@.details[i] == (
            #[trigger] harness.details@[i])@,
{
}

/// The details of a capture are its name and then one line for each difference, in their order, and
/// nothing else.
pub proof fn law_details_grow_line_by_line(
    basename: Seq<char>,
    diffs: Seq<DiffView>,
    diff: DiffView,
)
    ensures
        detail_block(basename, Seq::empty()) == "  --- "@ + basename + " ---\n"@,
        detail_block(basename, diffs.push(diff)) == detail_block(basename, diffs) + ("  "@
            + diff_line(diff) + "\n"@),
{
    let none = Seq::<DiffView>::empty();
    let head = "  --- "@ + basename + " ---\n"@;
    assert(diff_lines(none) =~= Seq::<Seq<char>>::empty());
    assert(head + Seq::<char>::empty() =~= head);
    let more = diff_lines(diffs.push(diff));
    assert(more =~= diff_lines(diffs).push(diff_line(diff)));
    assert(more.drop_last() =~= diff_lines(diffs));
    assert(detail_block(basename, diffs.push(diff)) =~= detail_block(basename, diffs) + ("  "@
        + diff_line(diff) + "\n"@));
}

/// What is printed in the end is the counts, and behind an empty line the details of one capture
/// after the other.
pub proof fn law_closing_grows_block_by_block(harness: HarnessView, block: Seq<char>)
    ensures
        closing(HarnessView { details: seq![block], ..harness }) == closing(
            HarnessView { details: Seq::empty(), ..harness },
        ) + "\n"@ + block,
        harness.details.len() > 0 ==> closing(
            HarnessView { details: harness.details.push(block), ..harness },
        ) == closing(harness) + block,
{
    let details = harness.details;
    let none = HarnessView { details: Seq::empty(), ..harness };
    let one = HarnessView { details: seq![block], ..harness };
    let more = HarnessView { details: details.push(block), ..harness };
    assert(seq![block].drop_last() =~= Seq::<Seq<char>>::empty());
    assert(joined(Seq::<Seq<char>>::empty()) =~= Seq::<char>::empty());
    assert(joined(seq![block]) == joined(seq![block].drop_last()) + block);
    assert(joined(seq![block]) =~= block);
    assert(closing(one) =~= closing(none) + "\n"@ + block);
    assert(details.push(block).drop_last() =~= details);
    if details.len() > 0 {
        assert(closing(more) =~= closing(harness) + block);
    }
}

} // verus!
