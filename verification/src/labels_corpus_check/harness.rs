//! The course of a corpus check: what is counted and said of each capture, and the verdict.

use vstd::prelude::*;

use crate::json::ascending;
use crate::json::keys_of;
use crate::json::lemma_put_member_ascending;
use crate::json::members_of;
use crate::json::Json;
use crate::json::JsonView;
use crate::json_value::json_document;
use crate::json_value::parse_json;
use crate::json_value::reads_as;
use crate::labels_corpus_check::analysis::analysis_json;
use crate::labels_corpus_check::analysis::analysis_members;
use crate::labels_corpus_check::analysis::Analysis;
use crate::labels_corpus_check::diff::all_printable;
use crate::labels_corpus_check::diff::diff_lines;
use crate::labels_corpus_check::diff::diff_views;
use crate::labels_corpus_check::diff::exact_differences;
use crate::labels_corpus_check::diff::exact_diffs;
use crate::labels_corpus_check::diff::lines_of;
use crate::labels_corpus_check::diff::printable_diffs;
use crate::labels_corpus_check::diff::structural_differences;
use crate::labels_corpus_check::diff::structural_diffs;
use crate::labels_corpus_check::diff::Diff;
use crate::labels_corpus_check::diff::DiffView;
use crate::labels_corpus_check::diff_laws::law_identical_documents_are_clean;
use crate::text::decimal;
use crate::text::decimal_text;
use crate::text::pad_right;
use crate::text::padded_right;
use crate::text::texts;

verus! {

/// The counts of a corpus check and the details of its failures.
pub struct Harness {
    pub total: usize,
    pub pass: usize,
    pub fail: usize,
    pub no_snapshot: usize,
    pub updated: usize,
    pub details: Vec<String>,
}

/// The counts of a corpus check and the details of its failures.
pub struct HarnessView {
    pub total: nat,
    pub pass: nat,
    pub fail: nat,
    pub no_snapshot: nat,
    pub updated: nat,
    pub details: Seq<Seq<char>>,
}

impl View for Harness {
    type V = HarnessView;

    open spec fn view(&self) -> HarnessView {
        HarnessView {
            total: self.total as nat,
            pass: self.pass as nat,
            fail: self.fail as nat,
            no_snapshot: self.no_snapshot as nat,
            updated: self.updated as nat,
            details: texts(self.details@),
        }
    }
}

impl HarnessView {
    /// How many captures have been dealt with: each is counted once.
    pub open spec fn seen(self) -> nat {
        self.pass + self.fail + self.no_snapshot + self.updated
    }

    /// Whether the counts fit: no more captures dealt with than there are, and details of failures
    /// only.
    pub open spec fn is_sound(self) -> bool {
        self.seen() <= self.total && self.details.len() <= self.fail
    }

    /// The counts after a capture that passed.
    pub open spec fn after_pass(self) -> HarnessView {
        HarnessView { pass: self.pass + 1, ..self }
    }

    /// The counts after a capture that failed without details.
    pub open spec fn after_failure(self) -> HarnessView {
        HarnessView { fail: self.fail + 1, ..self }
    }

    /// The counts after a capture that failed with details.
    pub open spec fn after_drift(self, block: Seq<char>) -> HarnessView {
        HarnessView { fail: self.fail + 1, details: self.details.push(block), ..self }
    }

    /// The counts after a capture without a snapshot.
    pub open spec fn after_miss(self) -> HarnessView {
        HarnessView { no_snapshot: self.no_snapshot + 1, ..self }
    }

    /// The counts after a capture whose snapshot was written.
    pub open spec fn after_update(self) -> HarnessView {
        HarnessView { updated: self.updated + 1, ..self }
    }
}

/// The line on a capture that failed.
pub open spec fn fail_line(basename: Seq<char>, reason: Seq<char>) -> Seq<char> {
    "FAIL "@ + padded_right(basename, 24) + " ("@ + reason + ")"@
}

/// The ending of a noun that counts `n` things.
pub open spec fn plural(n: nat) -> Seq<char> {
    if n == 1 {
        Seq::empty()
    } else {
        "s"@
    }
}

/// The lines of a list, each indented and ended.
pub open spec fn indented(lines: Seq<Seq<char>>) -> Seq<char>
    decreases lines.len(),
{
    if lines.len() == 0 {
        Seq::empty()
    } else {
        indented(lines.drop_last()) + "  "@ + lines.last() + "\n"@
    }
}

/// The details of a capture that drifted from its snapshot.
pub open spec fn detail_block(basename: Seq<char>, diffs: Seq<DiffView>) -> Seq<char> {
    "  --- "@ + basename + " ---\n"@ + indented(diff_lines(diffs))
}

/// The differences that a comparison finds, strict or structural.
pub open spec fn differences(want: JsonView, got: JsonView, exact: bool) -> Seq<DiffView> {
    if exact {
        exact_differences(want, got)
    } else {
        structural_differences(want, got)
    }
}

/// The line on a capture that was compared with its snapshot.
pub open spec fn compared_line(basename: Seq<char>, diffs: Seq<DiffView>) -> Seq<char> {
    if diffs.len() == 0 {
        "PASS "@ + basename
    } else {
        fail_line(basename, decimal(diffs.len()) + " diff"@ + plural(diffs.len()))
    }
}

/// The counts after a capture was compared with its snapshot.
pub open spec fn after_comparison(
    harness: HarnessView,
    basename: Seq<char>,
    diffs: Seq<DiffView>,
) -> HarnessView {
    if diffs.len() == 0 {
        harness.after_pass()
    } else {
        harness.after_drift(detail_block(basename, diffs))
    }
}

/// The line on a capture whose snapshot is not JSON.
pub open spec fn unreadable_line(
    basename: Seq<char>,
    snapshot_path: Seq<char>,
    error: Seq<char>,
) -> Seq<char> {
    fail_line(basename, "snapshot parse error in "@ + snapshot_path + ": "@ + error)
}

/// The line on a capture, given what its snapshot reads as.
pub open spec fn checked_line(
    basename: Seq<char>,
    snapshot_path: Seq<char>,
    snapshot: Result<JsonView, Seq<char>>,
    current: JsonView,
    exact: bool,
) -> Seq<char> {
    match snapshot {
        Ok(want) => compared_line(basename, differences(want, current, exact)),
        Err(error) => unreadable_line(basename, snapshot_path, error),
    }
}

/// The counts after a capture, given what its snapshot reads as.
pub open spec fn after_check(
    harness: HarnessView,
    basename: Seq<char>,
    snapshot: Result<JsonView, Seq<char>>,
    current: JsonView,
    exact: bool,
) -> HarnessView {
    match snapshot {
        Ok(want) => after_comparison(harness, basename, differences(want, current, exact)),
        Err(_) => harness.after_failure(),
    }
}

/// Whether all that is to be said of a capture can be written, given what its snapshot reads as.
pub open spec fn check_is_printable(
    snapshot: Result<JsonView, Seq<char>>,
    current: JsonView,
    exact: bool,
) -> bool {
    match snapshot {
        Ok(want) => all_printable(differences(want, current, exact)),
        Err(_) => true,
    }
}

/// The details of all failures, one after the other.
pub open spec fn joined(blocks: Seq<Seq<char>>) -> Seq<char>
    decreases blocks.len(),
{
    if blocks.len() == 0 {
        Seq::empty()
    } else {
        joined(blocks.drop_last()) + blocks.last()
    }
}

/// The line that sums up the counts.
pub open spec fn summary_line(harness: HarnessView) -> Seq<char> {
    "Summary: "@ + decimal(harness.pass) + " pass, "@ + decimal(harness.fail) + " fail, "@
        + decimal(harness.no_snapshot) + " missing snapshot ("@ + decimal(harness.total)
        + " total)"@
}

/// What is printed after the last capture: the sum after an empty line, and the details of the
/// failures, if there are any, after another.
pub open spec fn closing(harness: HarnessView) -> Seq<char> {
    "\n"@ + summary_line(harness) + "\n"@ + if harness.details.len() == 0 {
        Seq::empty()
    } else {
        "\n"@ + joined(harness.details)
    }
}

/// The error with which a check that saw failures ends.
pub open spec fn regression_message(fail: nat) -> Seq<char> {
    decimal(fail) + " regression"@ + plural(fail)
}

fn plural_text(n: usize) -> (s: &'static str)
    ensures
        s@ == plural(n as nat),
{
    proof {
        reveal_strlit("");
        assert(""@ =~= Seq::<char>::empty());
    }
    if n == 1 {
        ""
    } else {
        "s"
    }
}

fn write_fail_line(basename: &str, reason: &str) -> (line: String)
    ensures
        line@ == fail_line(basename@, reason@),
{
    let mut line: String = "FAIL ".to_owned();
    line.append(pad_right(basename, 24).as_str());
    line.append(" (");
    line.append(reason);
    line.append(")");
    line
}

fn write_detail_block(basename: &str, diffs: &Vec<Diff>) -> (block: String)
    requires
        all_printable(diff_views(diffs@)),
    ensures
        block@ == detail_block(basename@, diff_views(diffs@)),
{
    let lines: Vec<String> = lines_of(diffs);
    let ghost all = texts(lines@);
    let mut block: String = "  --- ".to_owned();
    block.append(basename);
    block.append(" ---\n");
    let ghost head = block@;
    let mut i: usize = 0;
    assert(block@ =~= head + indented(all.take(0)));
    while i < lines.len()
        invariant
            i <= lines.len(),
            all == texts(lines@),
            block@ == head + indented(all.take(i as int)),
        decreases lines.len() - i,
    {
        assert(all.take(i + 1).drop_last() =~= all.take(i as int));
        block.append("  ");
        block.append(lines[i].as_str());
        block.append("\n");
        assert(block@ =~= head + indented(all.take(i + 1)));
        i = i + 1;
    }
    assert(all.take(i as int) =~= all);
    block
}

/// The error with which a check without captures ends.
pub open spec fn nothing_found(dir: Seq<char>) -> Seq<char> {
    "no disc captures (*.bin or *.iso) found under "@ + dir
}

impl Harness {
    /// Starts a check of `captures` captures found under a directory; an error where there are
    /// none.
    pub fn start(captures: usize, dir: &str) -> (harness: Result<Harness, String>)
        ensures
            harness is Err <==> captures == 0,
            harness matches Err(message) ==> message@ == nothing_found(dir@),
            harness matches Ok(h) ==> h@ == (HarnessView {
                total: captures as nat,
                pass: 0,
                fail: 0,
                no_snapshot: 0,
                updated: 0,
                details: Seq::empty(),
            }) && h@.is_sound(),
    {
        if captures == 0 {
            let mut message: String = "no disc captures (*.bin or *.iso) found under ".to_owned();
            message.append(dir);
            return Err(message);
        }
        let harness = Harness {
            total: captures,
            pass: 0,
            fail: 0,
            no_snapshot: 0,
            updated: 0,
            details: Vec::new(),
        };
        assert(texts(harness.details@) =~= Seq::<Seq<char>>::empty());
        Ok(harness)
    }

    /// Counts a capture that could not be analyzed, and gives the line on it.
    pub fn analysis_failed(&mut self, basename: &str, error: &str) -> (line: String)
        requires
            old(self)@.is_sound(),
            old(self)@.seen() < old(self)@.total,
        ensures
            final(self)@ == old(self)@.after_failure(),
            final(self)@.is_sound(),
            line@ == fail_line(basename@, "analyze error: "@ + error@),
    {
        self.fail = self.fail + 1;
        let mut reason: String = "analyze error: ".to_owned();
        reason.append(error);
        write_fail_line(basename, reason.as_str())
    }

    /// Counts a capture whose snapshot was written, and gives the line on it.
    pub fn snapshot_written(&mut self, basename: &str, snapshot_path: &str) -> (line: String)
        requires
            old(self)@.is_sound(),
            old(self)@.seen() < old(self)@.total,
        ensures
            final(self)@ == old(self)@.after_update(),
            final(self)@.is_sound(),
            line@ == "UPDATE "@ + padded_right(basename@, 22) + " -> "@ + snapshot_path@,
    {
        self.updated = self.updated + 1;
        let mut line: String = "UPDATE ".to_owned();
        line.append(pad_right(basename, 22).as_str());
        line.append(" -> ");
        line.append(snapshot_path);
        line
    }

    /// Counts a capture without a snapshot, and gives the line on it.
    pub fn snapshot_missing(&mut self, basename: &str, snapshot_name: &str) -> (line: String)
        requires
            old(self)@.is_sound(),
            old(self)@.seen() < old(self)@.total,
        ensures
            final(self)@ == old(self)@.after_miss(),
            final(self)@.is_sound(),
            line@ == "MISS "@ + padded_right(basename@, 24) + " (no "@ + snapshot_name@
                + "; run with --update to create)"@,
    {
        self.no_snapshot = self.no_snapshot + 1;
        let mut line: String = "MISS ".to_owned();
        line.append(pad_right(basename, 24).as_str());
        line.append(" (no ");
        line.append(snapshot_name);
        line.append("; run with --update to create)");
        line
    }

    /// Counts a capture whose snapshot is not JSON, and gives the line on it.
    pub fn snapshot_unreadable(&mut self, basename: &str, snapshot_path: &str, error: &str) -> (line:
        String)
        requires
            old(self)@.is_sound(),
            old(self)@.seen() < old(self)@.total,
        ensures
            final(self)@ == old(self)@.after_failure(),
            final(self)@.is_sound(),
            line@ == unreadable_line(basename@, snapshot_path@, error@),
    {
        self.fail = self.fail + 1;
        let mut reason: String = "snapshot parse error in ".to_owned();
        reason.append(snapshot_path);
        reason.append(": ");
        reason.append(error);
        write_fail_line(basename, reason.as_str())
    }

    /// Counts a capture by the differences from its snapshot, and gives the line on it.
    pub fn snapshot_compared(&mut self, basename: &str, diffs: &Vec<Diff>) -> (line: String)
        requires
            old(self)@.is_sound(),
            old(self)@.seen() < old(self)@.total,
            all_printable(diff_views(diffs@)),
        ensures
            final(self)@ == after_comparison(old(self)@, basename@, diff_views(diffs@)),
            final(self)@.is_sound(),
            line@ == compared_line(basename@, diff_views(diffs@)),
    {
        if diffs.len() == 0 {
            self.pass = self.pass + 1;
            let mut line: String = "PASS ".to_owned();
            line.append(basename);
            return line;
        }
        self.fail = self.fail + 1;
        let ghost before = self.details@;
        let block: String = write_detail_block(basename, diffs);
        self.details.push(block);
        assert(texts(self.details@) =~= texts(before).push(block@));
        let mut reason: String = decimal_text(diffs.len() as u64);
        reason.append(" diff");
        reason.append(plural_text(diffs.len()));
        write_fail_line(basename, reason.as_str())
    }

    /// Checks a capture against the text of its snapshot, counts it, and gives the line on it.
    /// Where a difference cannot be written, nothing is counted and there is no line.
    pub fn check_snapshot(
        &mut self,
        basename: &str,
        snapshot_path: &str,
        snapshot: &str,
        current: &Json,
        exact: bool,
    ) -> (line: Option<String>)
        requires
            old(self)@.is_sound(),
            old(self)@.seen() < old(self)@.total,
        ensures
            line is Some <==> check_is_printable(json_document(snapshot@), current@, exact),
            line is None ==> *final(self) == *old(self),
            line matches Some(l) ==> l@ == checked_line(
                basename@,
                snapshot_path@,
                json_document(snapshot@),
                current@,
                exact,
            ) && final(self)@ == after_check(
                old(self)@,
                basename@,
                json_document(snapshot@),
                current@,
                exact,
            ),
            final(self)@.is_sound(),
    {
        match parse_json(snapshot) {
            Ok(want) => {
                let diffs: Vec<Diff> = if exact {
                    exact_diffs(&want, current)
                } else {
                    structural_diffs(&want, current)
                };
                if printable_diffs(&diffs) {
                    Some(self.snapshot_compared(basename, &diffs))
                } else {
                    None
                }
            },
            Err(error) => Some(self.snapshot_unreadable(basename, snapshot_path, error.as_str())),
        }
    }

    /// What is printed after the last capture.
    pub fn closing_text(&self) -> (text: String)
        ensures
            text@ == closing(self@),
    {
        let mut text: String = "\n".to_owned();
        text.append("Summary: ");
        text.append(decimal_text(self.pass as u64).as_str());
        text.append(" pass, ");
        text.append(decimal_text(self.fail as u64).as_str());
        text.append(" fail, ");
        text.append(decimal_text(self.no_snapshot as u64).as_str());
        text.append(" missing snapshot (");
        text.append(decimal_text(self.total as u64).as_str());
        text.append(" total)");
        assert(text@ =~= "\n"@ + summary_line(self@));
        text.append("\n");
        if self.details.len() == 0 {
            assert(text@ =~= closing(self@));
            return text;
        }
        text.append("\n");
        let ghost head = text@;
        let ghost blocks = texts(self.details@);
        let mut i: usize = 0;
        assert(text@ =~= head + joined(blocks.take(0)));
        while i < self.details.len()
            invariant
                i <= self.details.len(),
                blocks == texts(self.details@),
                text@ == head + joined(blocks.take(i as int)),
            decreases self.details.len() - i,
        {
            assert(blocks.take(i + 1).drop_last() =~= blocks.take(i as int));
            text.append(self.details[i].as_str());
            assert(text@ =~= head + joined(blocks.take(i + 1)));
            i = i + 1;
        }
        assert(blocks.take(i as int) =~= blocks);
        assert(text@ =~= closing(self@));
        text
    }

    /// How the check ends: in an error where a capture failed.
    pub fn verdict(&self) -> (verdict: Result<(), String>)
        ensures
            verdict is Err <==> self@.fail > 0,
            verdict matches Err(message) ==> message@ == regression_message(self@.fail),
    {
        if self.fail > 0 {
            let mut message: String = decimal_text(self.fail as u64);
            message.append(" regression");
            message.append(plural_text(self.fail));
            Err(message)
        } else {
            Ok(())
        }
    }
}

proof fn lemma_members_of_ascending(list: Seq<(Seq<char>, JsonView)>)
    ensures
        ascending(keys_of(members_of(list))),
    decreases list.len(),
{
    if list.len() > 0 {
        lemma_members_of_ascending(list.drop_last());
        lemma_put_member_ascending(members_of(list.drop_last()), list.last().0, list.last().1);
    }
}

/// A capture passes the check against the snapshot that was written of the same analysis, in
/// either comparison.
pub proof fn law_blessed_snapshot_passes(
    harness: HarnessView,
    basename: Seq<char>,
    snapshot_path: Seq<char>,
    snapshot: Seq<char>,
    analysis: Analysis,
    exact: bool,
)
    requires
        reads_as(snapshot, analysis_json(analysis)),
    ensures
        check_is_printable(json_document(snapshot), analysis_json(analysis), exact),
        checked_line(
            basename,
            snapshot_path,
            json_document(snapshot),
            analysis_json(analysis),
            exact,
        ) == "PASS "@ + basename,
        after_check(
            harness,
            basename,
            json_document(snapshot),
            analysis_json(analysis),
            exact,
        ) == harness.after_pass(),
{
    lemma_members_of_ascending(analysis_members(analysis));
    law_identical_documents_are_clean(analysis_json(analysis));
}

/// Every capture that is dealt with is counted once, and the details are of captures that failed.
pub proof fn law_each_capture_is_counted_once(
    harness: HarnessView,
    basename: Seq<char>,
    snapshot: Result<JsonView, Seq<char>>,
    current: JsonView,
    exact: bool,
)
    requires
        harness.is_sound(),
        harness.seen() < harness.total,
    ensures
        after_check(harness, basename, snapshot, current, exact).seen() == harness.seen() + 1,
        after_check(harness, basename, snapshot, current, exact).is_sound(),
        harness.after_failure().seen() == harness.seen() + 1,
        harness.after_failure().is_sound(),
        harness.after_miss().seen() == harness.seen() + 1,
        harness.after_miss().is_sound(),
        harness.after_update().seen() == harness.seen() + 1,
        harness.after_update().is_sound(),
{
}

/// What came of one capture.
pub enum Outcome {
    AnalysisFailed,
    SnapshotWritten,
    SnapshotMissing,
    Checked { basename: Seq<char>, snapshot: Result<JsonView, Seq<char>>, current: JsonView },
}

/// Whether a capture fails: it could not be analyzed, its snapshot is not JSON, or the two differ.
pub open spec fn is_failure(outcome: Outcome, exact: bool) -> bool {
    match outcome {
        Outcome::AnalysisFailed => true,
        Outcome::SnapshotWritten => false,
        Outcome::SnapshotMissing => false,
        Outcome::Checked { basename, snapshot, current } => match snapshot {
            Ok(want) => differences(want, current, exact).len() > 0,
            Err(_) => true,
        },
    }
}

/// The counts after one capture.
pub open spec fn after_outcome(
    harness: HarnessView,
    outcome: Outcome,
    exact: bool,
) -> HarnessView {
    match outcome {
        Outcome::AnalysisFailed => harness.after_failure(),
        Outcome::SnapshotWritten => harness.after_update(),
        Outcome::SnapshotMissing => harness.after_miss(),
        Outcome::Checked { basename, snapshot, current } => after_check(
            harness,
            basename,
            snapshot,
            current,
            exact,
        ),
    }
}

/// The counts after a list of captures.
pub open spec fn after_outcomes(
    harness: HarnessView,
    outcomes: Seq<Outcome>,
    exact: bool,
) -> HarnessView
    decreases outcomes.len(),
{
    if outcomes.len() == 0 {
        harness
    } else {
        after_outcome(after_outcomes(harness, outcomes.drop_last(), exact), outcomes.last(), exact)
    }
}

/// How many captures of a list fail.
pub open spec fn failure_count(outcomes: Seq<Outcome>, exact: bool) -> nat
    decreases outcomes.len(),
{
    if outcomes.len() == 0 {
        0
    } else {
        failure_count(outcomes.drop_last(), exact) + if is_failure(outcomes.last(), exact) {
            1nat
        } else {
            0nat
        }
    }
}

/// After a list of captures, as many are counted as failed as fail, every capture is counted once,
/// and none is counted as failed exactly if none fails: the check then ends well.
pub proof fn law_failures_are_counted(harness: HarnessView, outcomes: Seq<Outcome>, exact: bool)
    ensures
        after_outcomes(harness, outcomes, exact).fail == harness.fail + failure_count(
            outcomes,
            exact,
        ),
        after_outcomes(harness, outcomes, exact).seen() == harness.seen() + outcomes.len(),
        after_outcomes(harness, outcomes, exact).total == harness.total,
        failure_count(outcomes, exact) == 0 <==> forall|i: int|
            0 <= i < outcomes.len() ==> !is_failure(#[trigger] outcomes[i], exact),
        harness.fail == 0 ==> (after_outcomes(harness, outcomes, exact).fail == 0 <==> forall|
            i: int,
        |
            0 <= i < outcomes.len() ==> !is_failure(#[trigger] outcomes[i], exact)),
    decreases outcomes.len(),
{
    if outcomes.len() > 0 {
        let front = outcomes.drop_last();
        law_failures_are_counted(harness, front, exact);
        if failure_count(outcomes, exact) == 0 {
            assert forall|i: int| 0 <= i < outcomes.len() implies !is_failure(
                #[trigger] outcomes[i],
                exact,
            ) by {
                if i < front.len() {
                    assert(!is_failure(front[i], exact));
                }
            }
        }
        if forall|i: int| 0 <= i < outcomes.len() ==> !is_failure(#[trigger] outcomes[i], exact) {
            assert forall|i: int| 0 <= i < front.len() implies !is_failure(
                #[trigger] front[i],
                exact,
            ) by {
                assert(!is_failure(outcomes[i], exact));
            }
            assert(!is_failure(outcomes[outcomes.len() - 1], exact));
        }
    }
}

} // verus!
