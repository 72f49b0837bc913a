//! What the documents of labels say of them.

use vstd::prelude::*;

use crate::json::lookup;
use crate::json::JsonView;
use crate::json_laws::law_built_objects_hold_the_list;
use crate::stream_label::count_of;
use crate::stream_label::label_json;
use crate::stream_label::label_members;
use crate::stream_label::labels_json;
use crate::stream_label::law_raw_codes_are_distinct_and_complete;
use crate::stream_label::raw_codes_of;
use crate::stream_label::with_code;
use crate::stream_label::StreamLabel;
use crate::stream_label::StreamLabelType;

verus! {

proof fn lemma_label_keys_differ()
    ensures
        "stream_number"@.len() == 13,
        "stream_type"@.len() == 11,
        "language"@.len() == 8,
        "name"@.len() == 4,
        "codec_hint"@.len() == 10,
        "variant"@.len() == 7 && "variant"@[0] == 'v',
        "purpose"@.len() == 7 && "purpose"@[0] == 'p',
        "qualifier"@.len() == 9,
{
    reveal_strlit("stream_number");
    reveal_strlit("stream_type");
    reveal_strlit("language");
    reveal_strlit("name");
    reveal_strlit("codec_hint");
    reveal_strlit("variant");
    reveal_strlit("purpose");
    reveal_strlit("qualifier");
}

/// The document of a label says each thing that is known of the label under the name of that thing,
/// and nothing else.
pub proof fn law_label_document_says_each_field(label: StreamLabel)
    ensures
        lookup(label_json(label), "stream_number"@) == Some(
            JsonView::Integer(label.stream_number as int),
        ),
        label.stream_type == StreamLabelType::Audio ==> lookup(label_json(label), "stream_type"@)
            == Some(JsonView::Text("audio"@)),
        label.stream_type == StreamLabelType::Subtitle ==> lookup(
            label_json(label),
            "stream_type"@,
        ) == Some(JsonView::Text("subtitle"@)),
        lookup(label_json(label), "language"@) == Some(JsonView::Text(label.language@)),
        lookup(label_json(label), "name"@) == Some(JsonView::Text(label.name@)),
        lookup(label_json(label), "codec_hint"@) == Some(JsonView::Text(label.codec_hint@)),
        lookup(label_json(label), "variant"@) == Some(JsonView::Text(label.variant@)),
        lookup(label_json(label), "purpose"@) == Some(JsonView::Text(label.purpose@)),
        lookup(label_json(label), "qualifier"@) == Some(JsonView::Text(label.qualifier@)),
        forall|key: Seq<char>| #[trigger]
            lookup(label_json(label), key) is Some ==> key == "stream_number"@ || key
                == "stream_type"@ || key == "language"@ || key == "name"@ || key == "codec_hint"@
                || key == "variant"@ || key == "purpose"@ || key == "qualifier"@,
{
    lemma_label_keys_differ();
    let list = label_members(label);
    assert forall|i: int, j: int| 0 <= i < j < list.len() implies (#[trigger] list[i]).0 != (
    #[trigger] list[j]).0 by {}
    law_built_objects_hold_the_list(list);
    assert(list[0].0 == "stream_number"@);
    assert(list[1].0 == "stream_type"@);
    assert(list[2].0 == "language"@);
    assert(list[3].0 == "name"@);
    assert(list[4].0 == "codec_hint"@);
    assert(list[5].0 == "variant"@);
    assert(list[6].0 == "purpose"@);
    assert(list[7].0 == "qualifier"@);
}

/// The document of a list of labels is an array with the document of each label in its place.
pub proof fn law_labels_keep_their_places(labels: Seq<StreamLabel>)
    ensures
        labels_json(labels) matches JsonView::Array(items) && items.len() == labels.len()
            && forall|i: int|
            0 <= i < labels.len() ==> #[trigger] items[i] == label_json(labels[i]),
{
}

/// As many labels are counted of a kind of stream as there are labels of it in the list.
pub proof fn law_labels_of_a_kind_are_counted(
    labels: Seq<StreamLabel>,
    stream_type: StreamLabelType,
)
    ensures
        count_of(labels, stream_type) == labels.filter(
            |label: StreamLabel| label.stream_type == stream_type,
        ).len(),
    decreases labels.len(),
{
    reveal(Seq::filter);
    if labels.len() > 0 {
        law_labels_of_a_kind_are_counted(labels.drop_last(), stream_type);
    }
}

/// All codes of labels as they come: the codec and the variant of the first, then of the second,
/// and so on.
pub open spec fn codes_as_they_come(labels: Seq<StreamLabel>) -> Seq<Seq<char>> {
    Seq::new(
        2 * labels.len(),
        |k: int|
            if k % 2 == 0 {
                labels[k / 2].codec_hint@
            } else {
                labels[k / 2].variant@
            },
    )
}

/// Whether a code is seen for the first time at a place.
pub open spec fn first_seen_at(codes: Seq<Seq<char>>, code: Seq<char>, k: int) -> bool {
    &&& 0 <= k < codes.len()
    &&& codes[k] == code
    &&& forall|i: int| 0 <= i < k ==> #[trigger] codes[i] != code
}

proof fn lemma_codes_step(labels: Seq<StreamLabel>)
    requires
        labels.len() > 0,
    ensures
        codes_as_they_come(labels) == codes_as_they_come(labels.drop_last()).push(
            labels.last().codec_hint@,
        ).push(labels.last().variant@),
{
    let all = codes_as_they_come(labels);
    let front = codes_as_they_come(labels.drop_last());
    let next = front.push(labels.last().codec_hint@).push(labels.last().variant@);
    assert(all.len() == next.len());
    assert forall|k: int| 0 <= k < all.len() implies all[k] == next[k] by {
        if k < front.len() {
            assert(k / 2 < labels.len() - 1);
        } else {
            assert(k / 2 == labels.len() - 1);
        }
    }
    assert(all =~= next);
}

/// Codes in the order in which they are first seen stay so when one more is seen.
proof fn lemma_with_code_keeps_order(
    codes: Seq<Seq<char>>,
    seen: Seq<Seq<char>>,
    code: Seq<char>,
)
    requires
        forall|i: int| 0 <= i < codes.len() ==> seen.contains(#[trigger] codes[i]),
        forall|x: Seq<char>| #[trigger] seen.contains(x) && x.len() > 0 ==> codes.contains(x),
        forall|i: int, j: int, k: int, m: int|
            0 <= i < j < codes.len() && first_seen_at(seen, codes[i], k) && first_seen_at(
                seen,
                codes[j],
                m,
            ) ==> k < m,
    ensures
        ({
            let more = with_code(codes, code);
            let all = seen.push(code);
            &&& forall|i: int| 0 <= i < more.len() ==> all.contains(#[trigger] more[i])
            &&& forall|x: Seq<char>| #[trigger]
                all.contains(x) && x.len() > 0 ==> more.contains(x)
            &&& forall|i: int, j: int, k: int, m: int|
                0 <= i < j < more.len() && first_seen_at(all, more[i], k) && first_seen_at(
                    all,
                    more[j],
                    m,
                ) ==> k < m
        }),
{
    let more = with_code(codes, code);
    let all = seen.push(code);
    let n = seen.len() as int;
    assert(all[n] == code);
    assert forall|x: Seq<char>| seen.contains(x) implies #[trigger] all.contains(x) by {
        let i = choose|i: int| 0 <= i < seen.len() && seen[i] == x;
        assert(all[i] == x);
    }
    assert forall|i: int| 0 <= i < more.len() implies all.contains(#[trigger] more[i]) by {
        if i < codes.len() {
            assert(seen.contains(codes[i]));
        }
    }
    assert forall|x: Seq<char>| #[trigger] all.contains(x) && x.len() > 0 implies more.contains(
        x,
    ) by {
        let i = choose|i: int| 0 <= i < all.len() && all[i] == x;
        if i < n {
            assert(seen.contains(seen[i]));
            let k = choose|k: int| 0 <= k < codes.len() && codes[k] == x;
            assert(more[k] == x);
        } else if codes.contains(code) {
            let k = choose|k: int| 0 <= k < codes.len() && codes[k] == x;
            assert(more[k] == x);
        } else {
            assert(more[codes.len() as int] == x);
        }
    }
    assert forall|i: int, j: int, k: int, m: int|
        0 <= i < j < more.len() && first_seen_at(all, more[i], k) && first_seen_at(
            all,
            more[j],
            m,
        ) implies k < m by {
        assert(more[i] == codes[i]);
        assert(seen.contains(codes[i]));
        let p = choose|p: int| 0 <= p < seen.len() && seen[p] == codes[i];
        assert(all[p] == more[i]);
        assert(k <= p);
        assert forall|q: int| 0 <= q < k implies #[trigger] seen[q] != codes[i] by {
            assert(all[q] == seen[q]);
        }
        assert(first_seen_at(seen, codes[i], k));
        if j < codes.len() {
            assert(more[j] == codes[j]);
            assert(seen.contains(codes[j]));
            let r = choose|r: int| 0 <= r < seen.len() && seen[r] == codes[j];
            assert(all[r] == more[j]);
            assert(m <= r);
            assert forall|q: int| 0 <= q < m implies #[trigger] seen[q] != codes[j] by {
                assert(all[q] == seen[q]);
            }
            assert(first_seen_at(seen, codes[j], m));
        } else {
            if m < n {
                assert(all[m] == seen[m]);
                assert(seen.contains(code));
            }
        }
    }
}

proof fn lemma_raw_codes_order(labels: Seq<StreamLabel>)
    ensures
        ({
            let raw = raw_codes_of(labels);
            let seen = codes_as_they_come(labels);
            &&& forall|i: int| 0 <= i < raw.len() ==> seen.contains(#[trigger] raw[i])
            &&& forall|x: Seq<char>| #[trigger]
                seen.contains(x) && x.len() > 0 ==> raw.contains(x)
            &&& forall|i: int, j: int, k: int, m: int|
                0 <= i < j < raw.len() && first_seen_at(seen, raw[i], k) && first_seen_at(
                    seen,
                    raw[j],
                    m,
                ) ==> k < m
        }),
    decreases labels.len(),
{
    if labels.len() > 0 {
        let front = labels.drop_last();
        let last = labels.last();
        lemma_raw_codes_order(front);
        lemma_codes_step(labels);
        let raw = raw_codes_of(front);
        let seen = codes_as_they_come(front);
        lemma_with_code_keeps_order(raw, seen, last.codec_hint@);
        lemma_with_code_keeps_order(
            with_code(raw, last.codec_hint@),
            seen.push(last.codec_hint@),
            last.variant@,
        );
    }
}

/// The raw codes are the codes of the labels that are not empty, each once, in the order in which
/// they are first seen.
pub proof fn law_raw_codes_come_as_first_seen(labels: Seq<StreamLabel>)
    ensures
        raw_codes_of(labels).no_duplicates(),
        forall|code: Seq<char>| #[trigger]
            raw_codes_of(labels).contains(code) <==> code.len() > 0 && codes_as_they_come(
                labels,
            ).contains(code),
        forall|i: int, j: int, k: int, m: int|
            0 <= i < j < raw_codes_of(labels).len() && #[trigger] first_seen_at(
                codes_as_they_come(labels),
                raw_codes_of(labels)[i],
                k,
            ) && #[trigger] first_seen_at(
                codes_as_they_come(labels),
                raw_codes_of(labels)[j],
                m,
            ) ==> k < m,
{
    law_raw_codes_are_distinct_and_complete(labels);
    lemma_raw_codes_order(labels);
    assert forall|code: Seq<char>| #[trigger] raw_codes_of(labels).contains(code) implies code.len()
        > 0 && codes_as_they_come(labels).contains(code) by {
        let i = choose|i: int| 0 <= i < raw_codes_of(labels).len() && raw_codes_of(labels)[i]
            == code;
        assert(codes_as_they_come(labels).contains(raw_codes_of(labels)[i]));
    }
}

} // verus!
