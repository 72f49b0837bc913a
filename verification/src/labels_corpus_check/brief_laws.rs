//! How long texts are cut for a line of differences.

use vstd::prelude::*;
use vstd::utf8::decode_utf8;
use vstd::utf8::decode_utf8_encode_utf8;
use vstd::utf8::decode_utf8_split;
use vstd::utf8::encode_scalar;
use vstd::utf8::encode_utf8;
use vstd::utf8::encode_utf8_decode_utf8;
use vstd::utf8::encode_utf8_first_scalar;
use vstd::utf8::encode_utf8_valid_utf8;
use vstd::utf8::is_char_boundary;
use vstd::utf8::pop_first_scalar;
use vstd::utf8::valid_utf8_split;

use crate::labels_corpus_check::diff::all_printable;
use crate::labels_corpus_check::diff::brief;
use crate::labels_corpus_check::diff::can_be_brief;
use crate::labels_corpus_check::diff::diff_lines;
use crate::labels_corpus_check::diff::is_printable;
use crate::labels_corpus_check::diff::DiffView;

verus! {

proof fn lemma_bytes_of_both(a: Seq<char>, b: Seq<char>)
    ensures
        encode_utf8(a + b) == encode_utf8(a) + encode_utf8(b),
    decreases a.len(),
{
    if a.len() == 0 {
        assert(a + b =~= b);
        assert(encode_utf8(a) + encode_utf8(b) =~= encode_utf8(b));
    } else {
        lemma_bytes_of_both(a.drop_first(), b);
        assert((a + b).drop_first() =~= a.drop_first() + b);
        assert(encode_utf8(a + b) =~= encode_utf8(a) + encode_utf8(b));
    }
}

proof fn lemma_boundary_behind(a: Seq<char>, b: Seq<char>)
    ensures
        is_char_boundary(encode_utf8(a + b), encode_utf8(a).len() as int),
    decreases a.len(),
{
    let all = encode_utf8(a + b);
    encode_utf8_valid_utf8(a + b);
    lemma_bytes_of_both(a, b);
    if a.len() > 0 {
        let rest = a.drop_first();
        lemma_boundary_behind(rest, b);
        encode_utf8_first_scalar(a + b);
        assert((a + b).drop_first() =~= rest + b);
        assert(pop_first_scalar(all) =~= encode_utf8(rest + b));
        assert(encode_utf8(a).len() == encode_scalar(a[0] as u32).len() + encode_utf8(rest).len());
    }
}

/// A text of at most eighty bytes is shown whole.
pub proof fn law_short_texts_are_shown_whole(text: Seq<char>)
    requires
        encode_utf8(text).len() <= 80,
    ensures
        can_be_brief(text),
        brief(text) == text,
{
}

/// A longer text whose first characters take eighty bytes is shown as these and an ellipsis.
pub proof fn law_long_texts_are_cut_at_eighty_bytes(head: Seq<char>, tail: Seq<char>)
    requires
        encode_utf8(head).len() == 80,
        tail.len() > 0,
    ensures
        can_be_brief(head + tail),
        brief(head + tail) == head + "…"@,
{
    let all = encode_utf8(head + tail);
    lemma_bytes_of_both(head, tail);
    lemma_boundary_behind(head, tail);
    assert(all.subrange(0, 80) =~= encode_utf8(head));
    encode_utf8_decode_utf8(head);
    let first = encode_scalar(tail[0] as u32);
    assert(encode_utf8(tail) == first + encode_utf8(tail.drop_first()));
    assert(first.len() >= 1);
    reveal_strlit("…");
    reveal_strlit("\u{2026}");
    assert("…"@ =~= "\u{2026}"@);
}

/// A longer text can be cut only where its first characters take eighty bytes.
pub proof fn law_cuts_are_between_characters(text: Seq<char>) -> (split: (Seq<char>, Seq<char>))
    requires
        encode_utf8(text).len() > 80,
        can_be_brief(text),
    ensures
        text == split.0 + split.1,
        encode_utf8(split.0).len() == 80,
        split.1.len() > 0,
{
    let all = encode_utf8(text);
    let first = all.subrange(0, 80);
    let second = all.subrange(80, all.len() as int);
    encode_utf8_valid_utf8(text);
    encode_utf8_decode_utf8(text);
    valid_utf8_split(all, 80);
    decode_utf8_split(all, 80);
    decode_utf8_encode_utf8(first);
    decode_utf8_encode_utf8(second);
    let head = decode_utf8(first);
    let tail = decode_utf8(second);
    assert(text =~= head + tail);
    if tail.len() == 0 {
        assert(encode_utf8(tail).len() == 0);
    }
    (head, tail)
}

/// A difference can be written as a line exactly if both of its texts can be cut, and a list of them
/// exactly if each can.
pub proof fn law_lines_need_both_texts(diffs: Seq<DiffView>)
    ensures
        all_printable(diffs) <==> forall|i: int|
            0 <= i < diffs.len() ==> can_be_brief((#[trigger] diffs[i]).want) && can_be_brief(
                diffs[i].got,
            ),
{
    if all_printable(diffs) {
        assert forall|i: int| 0 <= i < diffs.len() implies can_be_brief((#[trigger] diffs[i]).want)
            && can_be_brief(diffs[i].got) by {
            assert(is_printable(diffs[i]));
        }
    }
}

/// Differences are written one line each, in their order.
pub proof fn law_each_difference_is_a_line(diffs: Seq<DiffView>, i: int)
    requires
        0 <= i < diffs.len(),
    ensures
        diff_lines(diffs).len() == diffs.len(),
        diff_lines(diffs)[i] == diffs[i].label + ": want="@ + brief(diffs[i].want) + " got="@
            + brief(diffs[i].got),
{
}

} // verus!
