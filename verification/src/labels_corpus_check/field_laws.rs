//! What the comparison of two documents looks at, and in which order it reports.

use vstd::prelude::*;

use crate::json::json_text;
use crate::json::lookup;
use crate::json::same_json;
use crate::json::same_member;
use crate::json::JsonView;
use crate::labels_corpus_check::diff::brief;
use crate::labels_corpus_check::diff::diff_line;
use crate::labels_corpus_check::diff::document_keys;
use crate::labels_corpus_check::diff::exact_differences;
use crate::labels_corpus_check::diff::label_differences;
use crate::labels_corpus_check::diff::label_keys;
use crate::labels_corpus_check::diff::label_order;
use crate::labels_corpus_check::diff::label_orders;
use crate::labels_corpus_check::diff::member_differences;
use crate::labels_corpus_check::diff::normalized_labels;
use crate::labels_corpus_check::diff::objects_among;
use crate::labels_corpus_check::diff::sorted_labels;
use crate::labels_corpus_check::diff::stream_number_of;
use crate::labels_corpus_check::diff::stream_type_of;
use crate::labels_corpus_check::diff::structural_differences;
use crate::labels_corpus_check::diff::DiffView;
use crate::labels_corpus_check::diff_laws::labels_agree;
use crate::labels_corpus_check::diff_laws::law_structural_is_empty_iff_fields_agree;
use crate::labels_corpus_check::diff_laws::members_agree;
use crate::labels_corpus_check::label_laws::law_sorting_keeps_each_stream;
use crate::labels_corpus_check::label_laws::of_stream;
use crate::order::codes;
use crate::order::codes_order;
use crate::order::in_order;
use crate::order::law_sort_is_stable;
use crate::order::lemma_codes_equal;
use crate::order::lemma_codes_of_text;
use crate::order::lists_order;
use crate::order::sorted_positions;
use crate::order::Rank;
use crate::order_laws::law_texts_are_ordered_by_their_first_difference;
use crate::order_laws::stands_before;
use crate::text::decimal;

verus! {

/// The structural comparison finds nothing exactly where the documents hold the same parser,
/// confidence, detected parsers and counts, have equally many labels, and each label, once they are
/// normalized, holds the same number, type, language, name, codec, variant, purpose and qualifier as
/// the one in its place.
pub proof fn law_structural_sees_every_field(want: JsonView, got: JsonView)
    ensures
        structural_differences(want, got).len() == 0 <==> {
            let w = normalized_labels(lookup(want, "labels"@));
            let g = normalized_labels(lookup(got, "labels"@));
            &&& same_member(lookup(want, "parser"@), lookup(got, "parser"@))
            &&& same_member(lookup(want, "confidence"@), lookup(got, "confidence"@))
            &&& same_member(lookup(want, "parsers_detected"@), lookup(got, "parsers_detected"@))
            &&& same_member(lookup(want, "audio_count"@), lookup(got, "audio_count"@))
            &&& same_member(lookup(want, "subtitle_count"@), lookup(got, "subtitle_count"@))
            &&& w.len() == g.len()
            &&& forall|i: int|
                0 <= i < w.len() ==> {
                    let a = #[trigger] w[i];
                    let b = g[i];
                    &&& same_member(lookup(a, "stream_number"@), lookup(b, "stream_number"@))
                    &&& same_member(lookup(a, "stream_type"@), lookup(b, "stream_type"@))
                    &&& same_member(lookup(a, "language"@), lookup(b, "language"@))
                    &&& same_member(lookup(a, "name"@), lookup(b, "name"@))
                    &&& same_member(lookup(a, "codec_hint"@), lookup(b, "codec_hint"@))
                    &&& same_member(lookup(a, "variant"@), lookup(b, "variant"@))
                    &&& same_member(lookup(a, "purpose"@), lookup(b, "purpose"@))
                    &&& same_member(lookup(a, "qualifier"@), lookup(b, "qualifier"@))
                }
        },
{
    law_structural_is_empty_iff_fields_agree(want, got);
    lemma_document_members(want, got);
    let w = normalized_labels(lookup(want, "labels"@));
    let g = normalized_labels(lookup(got, "labels"@));
    assert forall|i: int| 0 <= i < w.len() implies (members_agree(
        #[trigger] w[i],
        g[i],
        label_keys(),
    ) <==> label_fields_agree(w[i], g[i])) by {
        lemma_label_members(w[i], g[i]);
    }
    assert(labels_agree(w, g, w.len()) <==> forall|i: int|
        0 <= i < w.len() ==> label_fields_agree(#[trigger] w[i], g[i])) by {
        if labels_agree(w, g, w.len()) {
            assert forall|i: int| 0 <= i < w.len() implies label_fields_agree(
                #[trigger] w[i],
                g[i],
            ) by {
                assert(members_agree(w[i], g[i], label_keys()));
            }
        }
        if forall|i: int| 0 <= i < w.len() ==> label_fields_agree(#[trigger] w[i], g[i]) {
            assert forall|i: int| 0 <= i < w.len() implies members_agree(
                #[trigger] w[i],
                g[i],
                label_keys(),
            ) by {
                assert(label_fields_agree(w[i], g[i]));
            }
        }
    }
}

/// Whether two labels hold the same in every field.
pub open spec fn label_fields_agree(a: JsonView, b: JsonView) -> bool {
    &&& same_member(lookup(a, "stream_number"@), lookup(b, "stream_number"@))
    &&& same_member(lookup(a, "stream_type"@), lookup(b, "stream_type"@))
    &&& same_member(lookup(a, "language"@), lookup(b, "language"@))
    &&& same_member(lookup(a, "name"@), lookup(b, "name"@))
    &&& same_member(lookup(a, "codec_hint"@), lookup(b, "codec_hint"@))
    &&& same_member(lookup(a, "variant"@), lookup(b, "variant"@))
    &&& same_member(lookup(a, "purpose"@), lookup(b, "purpose"@))
    &&& same_member(lookup(a, "qualifier"@), lookup(b, "qualifier"@))
}

proof fn lemma_document_members(want: JsonView, got: JsonView)
    ensures
        members_agree(want, got, document_keys()) <==> {
            &&& same_member(lookup(want, "parser"@), lookup(got, "parser"@))
            &&& same_member(lookup(want, "confidence"@), lookup(got, "confidence"@))
            &&& same_member(lookup(want, "parsers_detected"@), lookup(got, "parsers_detected"@))
            &&& same_member(lookup(want, "audio_count"@), lookup(got, "audio_count"@))
            &&& same_member(lookup(want, "subtitle_count"@), lookup(got, "subtitle_count"@))
        },
{
    let keys = document_keys();
    assert(keys.len() == 5);
    assert(keys[0] == "parser"@ && keys[1] == "confidence"@ && keys[2] == "parsers_detected"@
        && keys[3] == "audio_count"@ && keys[4] == "subtitle_count"@);
}

proof fn lemma_label_members(a: JsonView, b: JsonView)
    ensures
        members_agree(a, b, label_keys()) <==> label_fields_agree(a, b),
{
    let keys = label_keys();
    assert(keys.len() == 8);
    assert(keys[0] == "stream_number"@ && keys[1] == "stream_type"@ && keys[2] == "language"@
        && keys[3] == "name"@ && keys[4] == "codec_hint"@ && keys[5] == "variant"@ && keys[6]
        == "purpose"@ && keys[7] == "qualifier"@);
}

/// A missing value is shown as such, and any other one by its text.
pub open spec fn shown_text(value: Option<JsonView>) -> Seq<char> {
    if value is None {
        "<missing>"@
    } else {
        json_text(value->Some_0)
    }
}

/// The members that are compared give one difference for each that differs, in the order of their
/// keys: the key behind the prefix, and the texts of both values.
pub proof fn law_members_are_compared_in_order(
    prefix: Seq<char>,
    want: JsonView,
    got: JsonView,
    keys: Seq<Seq<char>>,
)
    ensures
        member_differences(prefix, want, got, keys) == keys.filter_map(
            |key: Seq<char>|
                if same_member(lookup(want, key), lookup(got, key)) {
                    None
                } else {
                    Some(
                        DiffView {
                            label: prefix + key,
                            want: shown_text(lookup(want, key)),
                            got: shown_text(lookup(got, key)),
                        },
                    )
                },
        ),
    decreases keys.len(),
{
    if keys.len() > 0 {
        law_members_are_compared_in_order(prefix, want, got, keys.drop_last());
        let rest = member_differences(prefix, want, got, keys.drop_last());
        assert(rest + Seq::<DiffView>::empty() =~= rest);
    }
}

/// The structural comparison reports the members of the document first, then a difference in the
/// number of labels, and then the labels as far as both lists go.
pub proof fn law_structural_reports_in_order(want: JsonView, got: JsonView)
    ensures
        ({
            let w = normalized_labels(lookup(want, "labels"@));
            let g = normalized_labels(lookup(got, "labels"@));
            let document = member_differences(
                Seq::empty(),
                want,
                got,
                seq![
                    "parser"@,
                    "confidence"@,
                    "parsers_detected"@,
                    "audio_count"@,
                    "subtitle_count"@,
                ],
            );
            let length = if w.len() == g.len() {
                Seq::empty()
            } else {
                seq![
                    DiffView {
                        label: "labels.len"@,
                        want: decimal(w.len()),
                        got: decimal(g.len()),
                    },
                ]
            };
            let both = if w.len() <= g.len() {
                w.len()
            } else {
                g.len()
            };
            structural_differences(want, got) == document + length + label_differences(w, g, both)
        }),
{
    let w = normalized_labels(lookup(want, "labels"@));
    let g = normalized_labels(lookup(got, "labels"@));
    let both = if w.len() <= g.len() {
        w.len()
    } else {
        g.len()
    };
    let keys = seq![
        "parser"@,
        "confidence"@,
        "parsers_detected"@,
        "audio_count"@,
        "subtitle_count"@,
    ];
    assert(keys =~= document_keys());
    let document = member_differences(Seq::empty(), want, got, keys);
    let length = if w.len() == g.len() {
        Seq::empty()
    } else {
        seq![DiffView { label: "labels.len"@, want: decimal(w.len()), got: decimal(g.len()) }]
    };
    assert(structural_differences(want, got) =~= document + length + label_differences(w, g, both));
}

/// The labels are compared one after the other, each in the same fields, which are reported with
/// the place of the label in front.
pub proof fn law_labels_are_compared_in_order(want: Seq<JsonView>, got: Seq<JsonView>, n: nat)
    ensures
        label_differences(want, got, 0) == Seq::<DiffView>::empty(),
        label_differences(want, got, n + 1) == label_differences(want, got, n)
            + member_differences(
            "labels["@ + decimal(n) + "]."@,
            want[n as int],
            got[n as int],
            seq![
                "stream_number"@,
                "stream_type"@,
                "language"@,
                "name"@,
                "codec_hint"@,
                "variant"@,
                "purpose"@,
                "qualifier"@,
            ],
        ),
{
    let keys = seq![
        "stream_number"@,
        "stream_type"@,
        "language"@,
        "name"@,
        "codec_hint"@,
        "variant"@,
        "purpose"@,
        "qualifier"@,
    ];
    assert(keys =~= label_keys());
}

/// Documents that are not both objects are compared as a whole.
pub proof fn law_other_documents_are_compared_whole(want: JsonView, got: JsonView)
    requires
        !(want is Object && got is Object),
    ensures
        same_json(want, got) ==> exact_differences(want, got).len() == 0,
        !same_json(want, got) ==> exact_differences(want, got) == seq![
            DiffView { label: "root"@, want: json_text(want), got: json_text(got) },
        ],
{
}

/// The stream type that a label says as text; empty where it says none.
pub open spec fn type_said(label: JsonView) -> Seq<char> {
    if let Some(JsonView::Text(s)) = lookup(label, "stream_type"@) {
        s
    } else {
        Seq::empty()
    }
}

/// The stream number that a label says as a number that fits; zero where it says none.
pub open spec fn number_said(label: JsonView) -> int {
    if let Some(JsonView::Integer(n)) = lookup(label, "stream_number"@) {
        if 0 <= n <= u64::MAX {
            n
        } else {
            0
        }
    } else {
        0
    }
}

proof fn lemma_label_order(a: JsonView, b: JsonView)
    ensures
        stream_type_of(a) == type_said(a),
        stream_number_of(a) == number_said(a),
        lists_order(label_order(a), label_order(b)) != Rank::Greater <==> stands_before(
            type_said(a),
            type_said(b),
            |c: char, d: char| c < d,
        ) || (type_said(a) == type_said(b) && number_said(a) <= number_said(b)),
        label_order(a) == label_order(b) <==> type_said(a) == type_said(b) && number_said(a)
            == number_said(b),
{
    let s = stream_type_of(a);
    let t = stream_type_of(b);
    let m = stream_number_of(a);
    let n = stream_number_of(b);
    let x = label_order(a);
    let y = label_order(b);
    law_texts_are_ordered_by_their_first_difference(s, t);
    lemma_codes_of_text(s, t);
    lemma_codes_equal(codes(s), codes(t));
    reveal_with_fuel(lists_order, 3);
    reveal_with_fuel(codes_order, 2);
    assert(x[0] == codes(s) && y[0] == codes(t));
    assert(x.skip(1)[0] == seq![m] && y.skip(1)[0] == seq![n]);
    assert(seq![m][0] == m && seq![n][0] == n);
    assert(x.skip(1).skip(1).len() == 0 && y.skip(1).skip(1).len() == 0);
    assert(seq![m].skip(1).len() == 0 && seq![n].skip(1).len() == 0);
    if x == y {
        assert(x[1] == seq![m] && y[1] == seq![n]);
    }
    if s == t && m == n {
        assert(x =~= y);
    }
}

proof fn lemma_objects_are_filtered(items: Seq<JsonView>)
    ensures
        objects_among(items) == items.filter(|item: JsonView| item is Object),
    decreases items.len(),
{
    reveal(Seq::filter);
    if items.len() > 0 {
        lemma_objects_are_filtered(items.drop_last());
    }
}

proof fn lemma_stream_is_filtered(
    labels: Seq<JsonView>,
    stream: Seq<Seq<u64>>,
    is_of: spec_fn(JsonView) -> bool,
)
    requires
        forall|label: JsonView| #[trigger] is_of(label) <==> label_order(label) == stream,
    ensures
        of_stream(labels, stream) == labels.filter(is_of),
    decreases labels.len(),
{
    reveal(Seq::filter);
    if labels.len() > 0 {
        lemma_stream_is_filtered(labels.drop_last(), stream, is_of);
        let front = of_stream(labels.drop_last(), stream);
        assert(is_of(labels.last()) <==> label_order(labels.last()) == stream);
        assert(of_stream(labels, stream) =~= labels.filter(is_of));
    }
}

/// Labels are normalized by stream type, in the order of the characters, and then by stream number.
pub proof fn law_labels_are_sorted_by_type_and_number(items: Seq<JsonView>, i: int, j: int)
    requires
        0 <= i < j < normalized_labels(Some(JsonView::Array(items))).len(),
    ensures
        ({
            let a = normalized_labels(Some(JsonView::Array(items)))[i];
            let b = normalized_labels(Some(JsonView::Array(items)))[j];
            stands_before(type_said(a), type_said(b), |c: char, d: char| c < d) || (type_said(a)
                == type_said(b) && number_said(a) <= number_said(b))
        }),
{
    let labels = objects_among(items);
    let keys = label_orders(labels);
    let order = sorted_positions(keys, labels.len());
    law_sort_is_stable(keys, labels.len());
    assert(in_order(keys, order[i], order[j]));
    assert(keys[order[i]] == label_order(labels[order[i]]));
    assert(keys[order[j]] == label_order(labels[order[j]]));
    lemma_label_order(sorted_labels(labels)[i], sorted_labels(labels)[j]);
}

/// Normalizing keeps every label object and nothing else, and the labels of the same type and number
/// in the order in which they came. Only an array has labels.
pub proof fn law_normalizing_keeps_the_labels(
    items: Seq<JsonView>,
    stream_type: Seq<char>,
    number: int,
)
    ensures
        normalized_labels(Some(JsonView::Array(items))).filter(
            |label: JsonView| type_said(label) == stream_type && number_said(label) == number,
        ) == items.filter(|item: JsonView| item is Object).filter(
            |label: JsonView| type_said(label) == stream_type && number_said(label) == number,
        ),
        normalized_labels(Some(JsonView::Array(items))).len() == items.filter(
            |item: JsonView| item is Object,
        ).len(),
        normalized_labels(None) == Seq::<JsonView>::empty(),
        forall|json: JsonView|
            !(json is Array) ==> #[trigger] normalized_labels(Some(json))
                == Seq::<JsonView>::empty(),
{
    let labels = objects_among(items);
    let sorted = sorted_labels(labels);
    let is_of = |label: JsonView| type_said(label) == stream_type && number_said(label) == number;
    lemma_objects_are_filtered(items);
    law_sort_is_stable(label_orders(labels), labels.len());
    reveal(Seq::filter);
    if 0 <= number <= u64::MAX {
        let stream = seq![codes(stream_type), seq![number as u64]];
        assert forall|label: JsonView| #[trigger] is_of(label) <==> label_order(label) == stream by {
            lemma_label_order(label, label);
            let x = label_order(label);
            assert(x[0] == codes(stream_type_of(label)) && x[1] == seq![stream_number_of(label)]);
            assert(stream[0] == codes(stream_type) && stream[1] == seq![number as u64]);
            assert(x[1][0] == stream_number_of(label) && stream[1][0] == number as u64);
            lemma_codes_of_text(stream_type_of(label), stream_type);
            if is_of(label) {
                assert(x =~= stream);
            }
        }
        lemma_stream_is_filtered(labels, stream, is_of);
        lemma_stream_is_filtered(sorted, stream, is_of);
        law_sorting_keeps_each_stream(labels, stream);
    } else {
        lemma_none_is_kept(labels, is_of);
        lemma_none_is_kept(sorted, is_of);
    }
}

proof fn lemma_none_is_kept(labels: Seq<JsonView>, is_of: spec_fn(JsonView) -> bool)
    requires
        forall|label: JsonView| !#[trigger] is_of(label),
    ensures
        labels.filter(is_of) == Seq::<JsonView>::empty(),
    decreases labels.len(),
{
    reveal(Seq::filter);
    if labels.len() > 0 {
        lemma_none_is_kept(labels.drop_last(), is_of);
        assert(!is_of(labels.last()));
    } else {
        assert(labels.filter(is_of) =~= Seq::<JsonView>::empty());
    }
}

/// A difference is written as its label and the two values, what was wanted before what came.
pub proof fn law_lines_say_what_was_wanted_and_what_came(diff: DiffView)
    ensures
        diff_line(diff) == diff.label + ": want="@ + brief(diff.want) + " got="@ + brief(diff.got),
{
}

} // verus!
