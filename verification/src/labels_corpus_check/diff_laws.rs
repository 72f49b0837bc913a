//! What holds of the differences between documents.

use vstd::prelude::*;
use vstd::seq_lib::lemma_seq_concat_contains_all_elements;

use crate::json::ascending;
use crate::json::find_member;
use crate::json::keys_of;
use crate::json::lookup;
use crate::json::put_member;
use crate::json::same_json;
use crate::json::same_member;
use crate::json::JsonView;
use crate::labels_corpus_check::diff::document_keys;
use crate::labels_corpus_check::diff::exact_differences;
use crate::labels_corpus_check::diff::label_differences;
use crate::labels_corpus_check::diff::label_keys;
use crate::labels_corpus_check::diff::label_order;
use crate::labels_corpus_check::diff::label_orders;
use crate::labels_corpus_check::diff::label_prefix;
use crate::labels_corpus_check::diff::labels_differences;
use crate::labels_corpus_check::diff::member_differences;
use crate::labels_corpus_check::diff::merged_keys;
use crate::labels_corpus_check::diff::normalized_labels;
use crate::labels_corpus_check::diff::objects_among;
use crate::labels_corpus_check::diff::shown;
use crate::labels_corpus_check::diff::sorted_labels;
use crate::labels_corpus_check::diff::stream_number_of;
use crate::labels_corpus_check::diff::stream_type_of;
use crate::labels_corpus_check::diff::structural_differences;
use crate::labels_corpus_check::diff::DiffView;
use crate::labels_corpus_check::label_laws::law_only_the_order_within_a_stream_matters;
use crate::labels_corpus_check::label_laws::of_stream;
use crate::order::law_sort_is_stable;
use crate::order::lemma_text_order;
use crate::order::lemma_text_transitive;
use crate::order::sorted_positions;
use crate::order::text_before;

verus! {

/// Whether a value, where it is an object, has its members in ascending order of their keys.
pub open spec fn has_sorted_members(json: JsonView) -> bool {
    json matches JsonView::Object(members) ==> ascending(keys_of(members))
}

/// Every JSON value equals itself.
pub proof fn lemma_same_reflexive(json: JsonView)
    ensures
        same_json(json, json),
    decreases json,
{
    match json {
        JsonView::Array(items) => {
            assert forall|i: int| 0 <= i < items.len() implies same_json(
                #[trigger] items[i],
                items[i],
            ) by {
                lemma_same_reflexive(items[i]);
            }
        },
        JsonView::Object(members) => {
            assert forall|i: int| 0 <= i < members.len() implies (#[trigger] members[i]).0
                == members[i].0 && same_json(members[i].1, members[i].1) by {
                lemma_same_reflexive(members[i].1);
            }
        },
        _ => {},
    }
}

/// Equal objects have equal members under every key.
pub proof fn lemma_find_in_same(
    x: Seq<(Seq<char>, JsonView)>,
    y: Seq<(Seq<char>, JsonView)>,
    key: Seq<char>,
)
    requires
        same_json(JsonView::Object(x), JsonView::Object(y)),
    ensures
        same_member(find_member(x, key), find_member(y, key)),
    decreases x.len(),
{
    if x.len() > 0 {
        let n = x.len() - 1;
        assert(x[n].0 == y[n].0 && same_json(x[n].1, y[n].1));
        let p = x.drop_last();
        let q = y.drop_last();
        assert forall|i: int| 0 <= i < p.len() implies (#[trigger] p[i]).0 == q[i].0 && same_json(
            p[i].1,
            q[i].1,
        ) by {
            assert(x[i].0 == y[i].0 && same_json(x[i].1, y[i].1));
        }
        lemma_find_in_same(p, q, key);
    }
}

/// Equal documents have equal members under every key.
pub proof fn lemma_lookup_in_same(want: JsonView, got: JsonView, key: Seq<char>)
    requires
        same_json(want, got),
    ensures
        same_member(lookup(want, key), lookup(got, key)),
{
    match (want, got) {
        (JsonView::Object(x), JsonView::Object(y)) => {
            lemma_find_in_same(x, y, key);
        },
        _ => {},
    }
}

proof fn lemma_no_member_differences(
    prefix: Seq<char>,
    want: JsonView,
    got: JsonView,
    keys: Seq<Seq<char>>,
)
    ensures
        member_differences(prefix, want, got, keys).len() == 0 <==> forall|i: int|
            0 <= i < keys.len() ==> same_member(
                lookup(want, #[trigger] keys[i]),
                lookup(got, keys[i]),
            ),
    decreases keys.len(),
{
    if keys.len() > 0 {
        let front = keys.drop_last();
        lemma_no_member_differences(prefix, want, got, front);
        if member_differences(prefix, want, got, keys).len() == 0 {
            assert forall|i: int| 0 <= i < keys.len() implies same_member(
                lookup(want, #[trigger] keys[i]),
                lookup(got, keys[i]),
            ) by {
                if i < front.len() {
                    assert(front[i] == keys[i]);
                }
            }
        }
        if forall|i: int|
            0 <= i < keys.len() ==> same_member(
                lookup(want, #[trigger] keys[i]),
                lookup(got, keys[i]),
            ) {
            assert forall|i: int| 0 <= i < front.len() implies same_member(
                lookup(want, #[trigger] front[i]),
                lookup(got, front[i]),
            ) by {
                assert(front[i] == keys[i]);
            }
            assert(same_member(
                lookup(want, keys[keys.len() - 1]),
                lookup(got, keys[keys.len() - 1]),
            ));
        }
    }
}

/// The merged keys are those of either list.
pub proof fn lemma_merged_keys(a: Seq<Seq<char>>, b: Seq<Seq<char>>, key: Seq<char>)
    ensures
        merged_keys(a, b).contains(key) <==> a.contains(key) || b.contains(key),
    decreases a.len() + b.len(),
{
    if a.len() > 0 && b.len() > 0 {
        assert(a =~= seq![a[0]] + a.skip(1));
        assert(b =~= seq![b[0]] + b.skip(1));
        lemma_seq_concat_contains_all_elements(seq![a[0]], a.skip(1), key);
        lemma_seq_concat_contains_all_elements(seq![b[0]], b.skip(1), key);
        assert(seq![a[0]].contains(key) <==> a[0] == key) by {
            assert(seq![a[0]][0] == a[0]);
        }
        assert(seq![b[0]].contains(key) <==> b[0] == key) by {
            assert(seq![b[0]][0] == b[0]);
        }
        if text_before(a[0], b[0]) {
            lemma_merged_keys(a.skip(1), b, key);
            lemma_seq_concat_contains_all_elements(seq![a[0]], merged_keys(a.skip(1), b), key);
        } else if text_before(b[0], a[0]) {
            lemma_merged_keys(a, b.skip(1), key);
            lemma_seq_concat_contains_all_elements(seq![b[0]], merged_keys(a, b.skip(1)), key);
        } else {
            lemma_text_order(a[0], b[0]);
            lemma_merged_keys(a.skip(1), b.skip(1), key);
            lemma_seq_concat_contains_all_elements(seq![a[0]], merged_keys(a.skip(1), b.skip(1)), key);
        }
    }
}

/// Two lists that hold the same and are strictly sorted by the same order are the same list.
proof fn lemma_sorted_is_unique<T>(a: Seq<T>, b: Seq<T>, before: spec_fn(T, T) -> bool)
    requires
        forall|i: int, j: int| 0 <= i < j < a.len() ==> before(#[trigger] a[i], #[trigger] a[j]),
        forall|i: int, j: int| 0 <= i < j < b.len() ==> before(#[trigger] b[i], #[trigger] b[j]),
        forall|x: T, y: T| #[trigger] before(x, y) ==> !before(y, x),
        forall|x: T| a.contains(x) <==> b.contains(x),
    ensures
        a == b,
    decreases a.len(),
{
    if a.len() == 0 {
        if b.len() > 0 {
            assert(b.contains(b[0]));
            assert(a.contains(b[0]));
        }
        assert(a =~= b);
    } else {
        assert(a.contains(a[0]));
        assert(b.contains(a[0]));
        let j = choose|j: int| 0 <= j < b.len() && b[j] == a[0];
        assert(b.contains(b[0]));
        assert(a.contains(b[0]));
        let i = choose|i: int| 0 <= i < a.len() && a[i] == b[0];
        assert(a[0] == b[0]) by {
            if i > 0 && j > 0 {
                assert(before(a[0], a[i]));
                assert(before(b[0], b[j]));
            }
        }
        let p = a.skip(1);
        let q = b.skip(1);
        assert forall|i: int, j: int| 0 <= i < j < p.len() implies before(
            #[trigger] p[i],
            #[trigger] p[j],
        ) by {
            assert(before(a[i + 1], a[j + 1]));
        }
        assert forall|i: int, j: int| 0 <= i < j < q.len() implies before(
            #[trigger] q[i],
            #[trigger] q[j],
        ) by {
            assert(before(b[i + 1], b[j + 1]));
        }
        assert forall|x: T| p.contains(x) implies q.contains(x) by {
            let k = choose|k: int| 0 <= k < p.len() && p[k] == x;
            assert(a[k + 1] == x);
            assert(before(a[0], a[k + 1]));
            assert(b.contains(x));
            let m = choose|m: int| 0 <= m < b.len() && b[m] == x;
            assert(m > 0);
            assert(q[m - 1] == x);
        }
        assert forall|x: T| q.contains(x) implies p.contains(x) by {
            let k = choose|k: int| 0 <= k < q.len() && q[k] == x;
            assert(b[k + 1] == x);
            assert(before(b[0], b[k + 1]));
            assert(b.contains(x));
            let m = choose|m: int| 0 <= m < a.len() && a[m] == x;
            assert(m > 0);
            assert(p[m - 1] == x);
        }
        lemma_sorted_is_unique(p, q, before);
        assert(a =~= seq![a[0]] + p);
        assert(b =~= seq![b[0]] + q);
    }
}

pub proof fn lemma_find_member_at(members: Seq<(Seq<char>, JsonView)>, i: int)
    requires
        ascending(keys_of(members)),
        0 <= i < members.len(),
    ensures
        find_member(members, members[i].0) == Some(members[i].1),
    decreases members.len(),
{
    let n = members.len() - 1;
    if i < n {
        assert(text_before(keys_of(members)[i], keys_of(members)[n]));
        lemma_text_order(members[i].0, members[n].0);
        let front = members.drop_last();
        assert forall|a: int, b: int| 0 <= a < b < keys_of(front).len() implies text_before(
            #[trigger] keys_of(front)[a],
            #[trigger] keys_of(front)[b],
        ) by {
            assert(text_before(keys_of(members)[a], keys_of(members)[b]));
        }
        lemma_find_member_at(front, i);
    }
}

/// A member is found exactly under the keys that the object has.
pub proof fn lemma_find_member_some(members: Seq<(Seq<char>, JsonView)>, key: Seq<char>)
    ensures
        find_member(members, key) is Some <==> keys_of(members).contains(key),
    decreases members.len(),
{
    if members.len() > 0 {
        let front = members.drop_last();
        lemma_find_member_some(front, key);
        assert(keys_of(members) =~= keys_of(front).push(members.last().0));
        lemma_seq_concat_contains_all_elements(keys_of(front), seq![members.last().0], key);
        assert(keys_of(members) =~= keys_of(front) + seq![members.last().0]);
        assert(seq![members.last().0].contains(key) <==> members.last().0 == key) by {
            assert(seq![members.last().0][0] == members.last().0);
        }
    } else {
        assert(!keys_of(members).contains(key));
    }
}

/// The strict comparison finds nothing exactly where the documents are equal.
pub proof fn law_exact_is_empty_iff_same(want: JsonView, got: JsonView)
    requires
        has_sorted_members(want),
        has_sorted_members(got),
    ensures
        exact_differences(want, got).len() == 0 <==> same_json(want, got),
{
    match (want, got) {
        (JsonView::Object(x), JsonView::Object(y)) => {
            let a = keys_of(x);
            let b = keys_of(y);
            let keys = merged_keys(a, b);
            lemma_no_member_differences(Seq::empty(), want, got, keys);
            if same_json(want, got) {
                assert forall|i: int| 0 <= i < keys.len() implies same_member(
                    lookup(want, #[trigger] keys[i]),
                    lookup(got, keys[i]),
                ) by {
                    lemma_lookup_in_same(want, got, keys[i]);
                }
            }
            if exact_differences(want, got).len() == 0 {
                assert forall|key: Seq<char>| keys.contains(key) implies #[trigger] same_member(
                    find_member(x, key),
                    find_member(y, key),
                ) by {
                    let i = choose|i: int| 0 <= i < keys.len() && keys[i] == key;
                    assert(same_member(lookup(want, keys[i]), lookup(got, keys[i])));
                }
                assert forall|key: Seq<char>| a.contains(key) <==> b.contains(key) by {
                    lemma_merged_keys(a, b, key);
                    lemma_find_member_some(x, key);
                    lemma_find_member_some(y, key);
                    if keys.contains(key) {
                        assert(same_member(find_member(x, key), find_member(y, key)));
                    }
                }
                let before = |s: Seq<char>, t: Seq<char>| text_before(s, t);
                assert forall|s: Seq<char>, t: Seq<char>| #[trigger] before(s, t) implies !before(
                    t,
                    s,
                ) by {
                    lemma_text_order(s, t);
                }
                lemma_sorted_is_unique(a, b, before);
                assert(x.len() == a.len() && y.len() == b.len());
                assert forall|i: int| 0 <= i < x.len() implies (#[trigger] x[i]).0 == y[i].0
                    && same_json(x[i].1, y[i].1) by {
                    assert(a[i] == x[i].0);
                    assert(b[i] == y[i].0);
                    lemma_find_member_at(x, i);
                    lemma_find_member_at(y, i);
                    lemma_merged_keys(a, b, x[i].0);
                    assert(a.contains(x[i].0));
                    assert(same_member(find_member(x, x[i].0), find_member(y, x[i].0)));
                }
            }
        },
        _ => {},
    }
}

/// Whether two lists hold equal values, place by place.
pub open spec fn same_lists(a: Seq<JsonView>, b: Seq<JsonView>) -> bool {
    &&& a.len() == b.len()
    &&& forall|i: int| 0 <= i < a.len() ==> same_json(#[trigger] a[i], b[i])
}

proof fn lemma_objects_among_same(a: Seq<JsonView>, b: Seq<JsonView>)
    requires
        same_lists(a, b),
    ensures
        same_lists(objects_among(a), objects_among(b)),
    decreases a.len(),
{
    if a.len() > 0 {
        let n = a.len() - 1;
        assert(same_json(a[n], b[n]));
        let p = a.drop_last();
        let q = b.drop_last();
        assert forall|i: int| 0 <= i < p.len() implies same_json(#[trigger] p[i], q[i]) by {
            assert(same_json(a[i], b[i]));
        }
        lemma_objects_among_same(p, q);
    }
}

proof fn lemma_label_order_of_same(a: JsonView, b: JsonView)
    requires
        same_json(a, b),
    ensures
        label_order(a) == label_order(b),
{
    lemma_lookup_in_same(a, b, "stream_type"@);
    lemma_lookup_in_same(a, b, "stream_number"@);
    assert(stream_type_of(a) == stream_type_of(b));
    assert(stream_number_of(a) == stream_number_of(b));
}

proof fn lemma_sorted_labels_same(a: Seq<JsonView>, b: Seq<JsonView>)
    requires
        same_lists(a, b),
    ensures
        same_lists(sorted_labels(a), sorted_labels(b)),
{
    assert(label_orders(a) =~= label_orders(b)) by {
        assert forall|i: int| 0 <= i < a.len() implies label_orders(a)[i] == label_orders(
            b,
        )[i] by {
            assert(same_json(a[i], b[i]));
            lemma_label_order_of_same(a[i], b[i]);
        }
    }
    let order = sorted_positions(label_orders(a), a.len());
    law_sort_is_stable(label_orders(a), a.len());
    assert forall|i: int| 0 <= i < sorted_labels(a).len() implies same_json(
        #[trigger] sorted_labels(a)[i],
        sorted_labels(b)[i],
    ) by {
        assert(0 <= order[i] < a.len());
        assert(same_json(a[order[i]], b[order[i]]));
    }
}

/// Whether two values have equal members under all of the given keys.
pub open spec fn members_agree(want: JsonView, got: JsonView, keys: Seq<Seq<char>>) -> bool {
    forall|i: int|
        0 <= i < keys.len() ==> same_member(lookup(want, #[trigger] keys[i]), lookup(got, keys[i]))
}

/// Whether the first `n` labels of two lists agree in all that is compared of a label.
pub open spec fn labels_agree(want: Seq<JsonView>, got: Seq<JsonView>, n: nat) -> bool {
    forall|i: int| 0 <= i < n ==> members_agree(#[trigger] want[i], got[i], label_keys())
}

proof fn lemma_no_label_differences(want: Seq<JsonView>, got: Seq<JsonView>, n: nat)
    ensures
        label_differences(want, got, n).len() == 0 <==> labels_agree(want, got, n),
    decreases n,
{
    if n > 0 {
        lemma_no_label_differences(want, got, (n - 1) as nat);
        let w = want[n - 1];
        let g = got[n - 1];
        lemma_no_member_differences(label_prefix((n - 1) as nat), w, g, label_keys());
        if label_differences(want, got, n).len() == 0 {
            assert(labels_agree(want, got, (n - 1) as nat));
            assert(members_agree(w, g, label_keys()));
        }
        if labels_agree(want, got, n) {
            assert(members_agree(want[n - 1], got[n - 1], label_keys()));
            assert(labels_agree(want, got, (n - 1) as nat));
        }
    }
}

/// The structural comparison finds nothing exactly where the documents agree in every member that
/// is compared, have as many labels, and the labels, once normalized, agree one by one.
pub proof fn law_structural_is_empty_iff_fields_agree(want: JsonView, got: JsonView)
    ensures
        structural_differences(want, got).len() == 0 <==> {
            &&& members_agree(want, got, document_keys())
            &&& normalized_labels(lookup(want, "labels"@)).len() == normalized_labels(
                lookup(got, "labels"@),
            ).len()
            &&& labels_agree(
                normalized_labels(lookup(want, "labels"@)),
                normalized_labels(lookup(got, "labels"@)),
                normalized_labels(lookup(want, "labels"@)).len(),
            )
        },
{
    let w = normalized_labels(lookup(want, "labels"@));
    let g = normalized_labels(lookup(got, "labels"@));
    lemma_no_member_differences(Seq::empty(), want, got, document_keys());
    lemma_no_label_differences(w, g, w.len());
}

/// The structural comparison finds nothing between equal documents; so what the strict comparison
/// passes, the structural one passes too.
pub proof fn law_structural_is_empty_on_same(want: JsonView, got: JsonView)
    requires
        same_json(want, got),
    ensures
        structural_differences(want, got).len() == 0,
{
    lemma_members_of_same(want, got, document_keys());
    lemma_lookup_in_same(want, got, "labels"@);
    let w = normalized_labels(lookup(want, "labels"@));
    let g = normalized_labels(lookup(got, "labels"@));
    assert(same_lists(w, g)) by {
        match (lookup(want, "labels"@), lookup(got, "labels"@)) {
            (Some(JsonView::Array(a)), Some(JsonView::Array(b))) => {
                assert(same_lists(a, b));
                lemma_objects_among_same(a, b);
                lemma_sorted_labels_same(objects_among(a), objects_among(b));
            },
            _ => {},
        }
    }
    assert forall|i: int| 0 <= i < w.len() implies members_agree(
        #[trigger] w[i],
        g[i],
        label_keys(),
    ) by {
        assert(same_json(w[i], g[i]));
        lemma_members_of_same(w[i], g[i], label_keys());
    }
    law_structural_is_empty_iff_fields_agree(want, got);
}

proof fn lemma_members_of_same(want: JsonView, got: JsonView, keys: Seq<Seq<char>>)
    requires
        same_json(want, got),
    ensures
        members_agree(want, got, keys),
{
    assert forall|i: int| 0 <= i < keys.len() implies same_member(
        lookup(want, #[trigger] keys[i]),
        lookup(got, keys[i]),
    ) by {
        lemma_lookup_in_same(want, got, keys[i]);
    }
}

/// A document compared with itself shows no differences, in either comparison.
pub proof fn law_identical_documents_are_clean(json: JsonView)
    requires
        has_sorted_members(json),
    ensures
        exact_differences(json, json).len() == 0,
        structural_differences(json, json).len() == 0,
{
    lemma_same_reflexive(json);
    law_exact_is_empty_iff_same(json, json);
    law_structural_is_empty_on_same(json, json);
}

/// After a member is put into an object, its key finds the new value and every other key finds
/// what it found before.
pub proof fn law_put_then_find(
    members: Seq<(Seq<char>, JsonView)>,
    key: Seq<char>,
    value: JsonView,
    other: Seq<char>,
)
    ensures
        find_member(put_member(members, key, value), key) == Some(value),
        other != key ==> find_member(put_member(members, key, value), other) == find_member(
            members,
            other,
        ),
    decreases members.len(),
{
    let result = put_member(members, key, value);
    if members.len() == 0 || text_before(members.last().0, key) {
        assert(result.drop_last() =~= members);
    } else if members.last().0 == key {
        assert(result.drop_last() =~= members.drop_last());
    } else {
        law_put_then_find(members.drop_last(), key, value, other);
        assert(result.drop_last() =~= put_member(members.drop_last(), key, value));
    }
}

proof fn lemma_same_member_differences(
    prefix: Seq<char>,
    want: JsonView,
    got: JsonView,
    want2: JsonView,
    got2: JsonView,
    keys: Seq<Seq<char>>,
)
    requires
        forall|i: int|
            0 <= i < keys.len() ==> lookup(want, #[trigger] keys[i]) == lookup(want2, keys[i])
                && lookup(got, keys[i]) == lookup(got2, keys[i]),
    ensures
        member_differences(prefix, want, got, keys) == member_differences(
            prefix,
            want2,
            got2,
            keys,
        ),
    decreases keys.len(),
{
    if keys.len() > 0 {
        let front = keys.drop_last();
        assert forall|i: int| 0 <= i < front.len() implies lookup(want, #[trigger] front[i])
            == lookup(want2, front[i]) && lookup(got, front[i]) == lookup(got2, front[i]) by {
            assert(front[i] == keys[i]);
        }
        lemma_same_member_differences(prefix, want, got, want2, got2, front);
        let n = keys.len() - 1;
        assert(lookup(want, keys[n]) == lookup(want2, keys[n]));
    }
}

/// A member that is not among those compared changes nothing in the structural comparison,
/// whatever it holds and on whichever side it stands.
pub proof fn law_other_members_are_ignored(
    members: Seq<(Seq<char>, JsonView)>,
    key: Seq<char>,
    value: JsonView,
    other: JsonView,
)
    requires
        !document_keys().contains(key),
        key != "labels"@,
    ensures
        structural_differences(JsonView::Object(put_member(members, key, value)), other)
            == structural_differences(JsonView::Object(members), other),
        structural_differences(other, JsonView::Object(put_member(members, key, value)))
            == structural_differences(other, JsonView::Object(members)),
{
    let old = JsonView::Object(members);
    let new = JsonView::Object(put_member(members, key, value));
    let keys = document_keys();
    assert forall|i: int| 0 <= i < keys.len() implies lookup(new, #[trigger] keys[i]) == lookup(
        old,
        keys[i],
    ) by {
        assert(keys.contains(keys[i]));
        law_put_then_find(members, key, value, keys[i]);
    }
    law_put_then_find(members, key, value, "labels"@);
    lemma_same_member_differences(Seq::empty(), new, other, old, other, keys);
    lemma_same_member_differences(Seq::empty(), other, new, other, old, keys);
}

/// The inventory of files and the raw codes, which shift with the size of a capture, change nothing
/// in the structural comparison.
pub proof fn law_inventory_and_codes_are_ignored(
    members: Seq<(Seq<char>, JsonView)>,
    key: Seq<char>,
    value: JsonView,
    other: JsonView,
)
    requires
        key == "jar_inventory"@ || key == "raw_codes"@,
    ensures
        structural_differences(JsonView::Object(put_member(members, key, value)), other)
            == structural_differences(JsonView::Object(members), other),
        structural_differences(other, JsonView::Object(put_member(members, key, value)))
            == structural_differences(other, JsonView::Object(members)),
{
    reveal_strlit("jar_inventory");
    reveal_strlit("raw_codes");
    reveal_strlit("parser");
    reveal_strlit("confidence");
    reveal_strlit("parsers_detected");
    reveal_strlit("audio_count");
    reveal_strlit("subtitle_count");
    reveal_strlit("labels");
    assert(key[0] == 'j' || key[0] == 'r');
    assert forall|i: int| 0 <= i < document_keys().len() implies document_keys()[i] != key by {
        assert(document_keys()[i][0] != 'j' && document_keys()[i][0] != 'r');
    }
    assert("labels"@[0] == 'l');
    law_other_members_are_ignored(members, key, value, other);
}

/// Documents whose labels differ only in the order in which the streams came show no differences
/// in their labels.
pub proof fn law_label_order_is_irrelevant(
    want: JsonView,
    got: JsonView,
    a: Seq<JsonView>,
    b: Seq<JsonView>,
)
    requires
        lookup(want, "labels"@) == Some(JsonView::Array(a)),
        lookup(got, "labels"@) == Some(JsonView::Array(b)),
        forall|stream: Seq<Seq<u64>>| #[trigger]
            of_stream(objects_among(a), stream) == of_stream(objects_among(b), stream),
    ensures
        structural_differences(want, got) == member_differences(
            Seq::empty(),
            want,
            got,
            document_keys(),
        ),
{
    law_only_the_order_within_a_stream_matters(a, b);
    let labels = normalized_labels(Some(JsonView::Array(a)));
    assert forall|i: int| 0 <= i < labels.len() implies members_agree(
        #[trigger] labels[i],
        labels[i],
        label_keys(),
    ) by {
        lemma_same_reflexive(labels[i]);
        lemma_members_of_same(labels[i], labels[i], label_keys());
    }
    lemma_no_label_differences(labels, labels, labels.len());
    assert(labels_differences(labels, labels) =~= Seq::<DiffView>::empty());
    let documents = member_differences(Seq::empty(), want, got, document_keys());
    assert(documents + Seq::<DiffView>::empty() =~= documents);
}

/// The merged keys of two ascending lists stand in ascending order, each once.
pub proof fn law_merged_keys_are_ascending(a: Seq<Seq<char>>, b: Seq<Seq<char>>)
    requires
        ascending(a),
        ascending(b),
    ensures
        ascending(merged_keys(a, b)),
    decreases a.len() + b.len(),
{
    if a.len() > 0 && b.len() > 0 {
        lemma_text_order(a[0], b[0]);
        lemma_text_order(b[0], a[0]);
        lemma_rest_is_ascending(a);
        lemma_rest_is_ascending(b);
        let (p, q) = if text_before(a[0], b[0]) {
            (a.skip(1), b)
        } else if text_before(b[0], a[0]) {
            (a, b.skip(1))
        } else {
            (a.skip(1), b.skip(1))
        };
        let head = if text_before(b[0], a[0]) {
            b[0]
        } else {
            a[0]
        };
        law_merged_keys_are_ascending(p, q);
        let rest = merged_keys(p, q);
        let all = merged_keys(a, b);
        assert(all == seq![head] + rest);
        assert forall|j: int| 0 <= j < rest.len() implies text_before(head, #[trigger] rest[j]) by {
            assert(rest.contains(rest[j]));
            lemma_merged_keys(p, q, rest[j]);
            if p.contains(rest[j]) {
                lemma_head_is_before(a, p, head, rest[j]);
            } else {
                lemma_head_is_before(b, q, head, rest[j]);
            }
        }
        assert forall|i: int, j: int| 0 <= i < j < all.len() implies text_before(
            #[trigger] all[i],
            #[trigger] all[j],
        ) by {
            if i == 0 {
                assert(text_before(head, rest[j - 1]));
            } else {
                assert(text_before(rest[i - 1], rest[j - 1]));
            }
        }
    }
}

proof fn lemma_rest_is_ascending(keys: Seq<Seq<char>>)
    requires
        ascending(keys),
        keys.len() > 0,
    ensures
        ascending(keys.skip(1)),
{
    let rest = keys.skip(1);
    assert forall|i: int, j: int| 0 <= i < j < rest.len() implies text_before(
        #[trigger] rest[i],
        #[trigger] rest[j],
    ) by {
        assert(text_before(keys[i + 1], keys[j + 1]));
    }
}

/// What is left of an ascending list stands behind the head that was taken, where that is the first
/// key of the list or stands before it.
proof fn lemma_head_is_before(
    keys: Seq<Seq<char>>,
    left: Seq<Seq<char>>,
    head: Seq<char>,
    key: Seq<char>,
)
    requires
        ascending(keys),
        keys.len() > 0,
        left.contains(key),
        (left == keys.skip(1) && head == keys[0]) || (left == keys && text_before(head, keys[0])),
    ensures
        text_before(head, key),
{
    let i = choose|i: int| 0 <= i < left.len() && left[i] == key;
    if left == keys.skip(1) && head == keys[0] {
        assert(text_before(keys[0], keys[i + 1]));
    } else if i > 0 {
        assert(text_before(keys[0], keys[i]));
        lemma_text_transitive(head, keys[0], keys[i]);
    }
}

/// What differences are labelled with.
pub open spec fn labels_of(diffs: Seq<DiffView>) -> Seq<Seq<char>> {
    diffs.map_values(|diff: DiffView| diff.label)
}

/// Whether a difference shows the members of two documents under the key that it is labelled with.
pub open spec fn shows_members(diff: DiffView, want: JsonView, got: JsonView) -> bool {
    &&& diff.want == shown(lookup(want, diff.label))
    &&& diff.got == shown(lookup(got, diff.label))
}

proof fn lemma_one_difference_for_each_key(want: JsonView, got: JsonView, keys: Seq<Seq<char>>)
    requires
        ascending(keys),
    ensures
        ascending(labels_of(member_differences(Seq::empty(), want, got, keys))),
        forall|key: Seq<char>| #[trigger]
            labels_of(member_differences(Seq::empty(), want, got, keys)).contains(key)
                <==> keys.contains(key) && !same_member(lookup(want, key), lookup(got, key)),
        forall|i: int|
            0 <= i < member_differences(Seq::empty(), want, got, keys).len() ==> shows_members(
                #[trigger] member_differences(Seq::empty(), want, got, keys)[i],
                want,
                got,
            ),
    decreases keys.len(),
{
    let diffs = member_differences(Seq::empty(), want, got, keys);
    let labels = labels_of(diffs);
    if keys.len() > 0 {
        let front = keys.drop_last();
        let last = keys.last();
        assert forall|i: int, j: int| 0 <= i < j < front.len() implies text_before(
            #[trigger] front[i],
            #[trigger] front[j],
        ) by {
            assert(text_before(keys[i], keys[j]));
        }
        lemma_one_difference_for_each_key(want, got, front);
        let before = member_differences(Seq::empty(), want, got, front);
        assert(Seq::<char>::empty() + last =~= last);
        assert(front.push(last) =~= keys);
        if same_member(lookup(want, last), lookup(got, last)) {
            assert(diffs =~= before);
        } else {
            assert(labels =~= labels_of(before).push(last));
        }
        assert forall|key: Seq<char>| #[trigger] labels.contains(key) <==> keys.contains(key)
            && !same_member(lookup(want, key), lookup(got, key)) by {
            lemma_seq_concat_contains_all_elements(front, seq![last], key);
            lemma_seq_concat_contains_all_elements(labels_of(before), seq![last], key);
            assert(keys =~= front + seq![last]);
            assert(labels_of(before).push(last) =~= labels_of(before) + seq![last]);
            assert(seq![last].contains(key) <==> last == key) by {
                assert(seq![last][0] == last);
            }
        }
        assert forall|i: int, j: int| 0 <= i < j < labels.len() implies text_before(
            #[trigger] labels[i],
            #[trigger] labels[j],
        ) by {
            if j < before.len() {
                assert(text_before(labels_of(before)[i], labels_of(before)[j]));
            } else {
                assert(labels_of(before).contains(labels_of(before)[i]));
                assert(front.contains(labels[i]));
                let k = choose|k: int| 0 <= k < front.len() && front[k] == labels[i];
                assert(text_before(keys[k], keys[keys.len() - 1]));
            }
        }
        assert forall|i: int| 0 <= i < diffs.len() implies shows_members(
            #[trigger] diffs[i],
            want,
            got,
        ) by {
            if i < before.len() {
                assert(diffs[i] == before[i]);
            }
        }
    } else {
        assert forall|key: Seq<char>| !(#[trigger] labels.contains(key)) by {}
    }
}

/// The strict comparison of two objects gives one difference for each key under which they differ,
/// and for no other key, in ascending order of the keys.
pub proof fn law_exact_gives_one_difference_for_each_key(
    want: Seq<(Seq<char>, JsonView)>,
    got: Seq<(Seq<char>, JsonView)>,
)
    requires
        ascending(keys_of(want)),
        ascending(keys_of(got)),
    ensures
        ascending(labels_of(exact_differences(JsonView::Object(want), JsonView::Object(got)))),
        forall|key: Seq<char>| #[trigger]
            labels_of(
                exact_differences(JsonView::Object(want), JsonView::Object(got)),
            ).contains(key) <==> !same_member(find_member(want, key), find_member(got, key)),
        forall|i: int|
            0 <= i < exact_differences(JsonView::Object(want), JsonView::Object(got)).len()
                ==> shows_members(
                #[trigger] exact_differences(JsonView::Object(want), JsonView::Object(got))[i],
                JsonView::Object(want),
                JsonView::Object(got),
            ),
{
    let a = keys_of(want);
    let b = keys_of(got);
    law_merged_keys_are_ascending(a, b);
    lemma_one_difference_for_each_key(
        JsonView::Object(want),
        JsonView::Object(got),
        merged_keys(a, b),
    );
    let diffs = exact_differences(JsonView::Object(want), JsonView::Object(got));
    assert forall|key: Seq<char>| #[trigger] labels_of(diffs).contains(key) <==> !same_member(
        find_member(want, key),
        find_member(got, key),
    ) by {
        lemma_merged_keys(a, b, key);
        lemma_find_member_some(want, key);
        lemma_find_member_some(got, key);
    }
}

} // verus!
