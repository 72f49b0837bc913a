//! What holds of labels once they are brought into order.

use vstd::prelude::*;
use vstd::seq_lib::lemma_seq_concat_contains_all_elements;

use crate::json::JsonView;
use crate::labels_corpus_check::diff::label_order;
use crate::labels_corpus_check::diff::label_orders;
use crate::labels_corpus_check::diff::normalized_labels;
use crate::labels_corpus_check::diff::objects_among;
use crate::labels_corpus_check::diff::sorted_labels;
use crate::order::in_order;
use crate::order::law_sort_is_stable;
use crate::order::lemma_lists_equal;
use crate::order::lemma_lists_flip;
use crate::order::lists_order;
use crate::order::sorted_positions;
use crate::order::with_position;
use crate::order::Rank;

verus! {

/// The labels of one stream, given what it is ordered by, in the order in which they came.
pub open spec fn of_stream(labels: Seq<JsonView>, stream: Seq<Seq<u64>>) -> Seq<JsonView>
    decreases labels.len(),
{
    if labels.len() == 0 {
        Seq::empty()
    } else {
        of_stream(labels.drop_last(), stream) + if label_order(labels.last()) == stream {
            seq![labels.last()]
        } else {
            Seq::empty()
        }
    }
}

/// The labels at a list of positions that are of one stream.
spec fn of_stream_at(labels: Seq<JsonView>, positions: Seq<int>, stream: Seq<Seq<u64>>) -> Seq<
    JsonView,
>
    decreases positions.len(),
{
    if positions.len() == 0 {
        Seq::empty()
    } else {
        of_stream_at(labels, positions.drop_last(), stream) + if label_order(
            labels[positions.last()],
        ) == stream {
            seq![labels[positions.last()]]
        } else {
            Seq::empty()
        }
    }
}

proof fn lemma_with_position_of_stream(
    labels: Seq<JsonView>,
    order: Seq<int>,
    p: int,
    stream: Seq<Seq<u64>>,
)
    requires
        0 <= p < labels.len(),
        forall|i: int| 0 <= i < order.len() ==> 0 <= #[trigger] order[i] < labels.len(),
    ensures
        of_stream_at(labels, with_position(label_orders(labels), order, p), stream)
            == of_stream_at(labels, order.push(p), stream),
    decreases order.len(),
{
    let keys = label_orders(labels);
    if order.len() > 0 && lists_order(keys[order.last()], keys[p]) == Rank::Greater {
        let front = order.drop_last();
        let last = order.last();
        assert(last == order[order.len() - 1]);
        assert forall|i: int| 0 <= i < front.len() implies 0 <= #[trigger] front[i]
            < labels.len() by {
            assert(front[i] == order[i]);
        }
        lemma_with_position_of_stream(labels, front, p, stream);
        lemma_lists_equal(keys[last], keys[p]);
        let placed = with_position(keys, front, p);
        assert(placed.push(last).drop_last() =~= placed);
        assert(front.push(p).drop_last() =~= front);
        assert(order.push(p).drop_last() =~= order);
        reveal_with_fuel(of_stream_at, 3);
        assert(keys[last] == label_order(labels[last]) && keys[p] == label_order(labels[p]));
        assert(of_stream_at(labels, placed.push(last), stream) =~= of_stream_at(
            labels,
            order.push(p),
            stream,
        ));
    }
}

proof fn lemma_sorted_positions_of_stream(labels: Seq<JsonView>, n: nat, stream: Seq<Seq<u64>>)
    requires
        n <= labels.len(),
    ensures
        of_stream_at(labels, sorted_positions(label_orders(labels), n), stream) == of_stream(
            labels.take(n as int),
            stream,
        ),
    decreases n,
{
    if n > 0 {
        let before = sorted_positions(label_orders(labels), (n - 1) as nat);
        lemma_sorted_positions_of_stream(labels, (n - 1) as nat, stream);
        law_sort_is_stable(label_orders(labels), (n - 1) as nat);
        lemma_with_position_of_stream(labels, before, n - 1, stream);
        assert(before.push(n - 1).drop_last() =~= before);
        assert(labels.take(n as int).drop_last() =~= labels.take(n - 1));
    }
}

proof fn lemma_of_stream_at(labels: Seq<JsonView>, positions: Seq<int>, stream: Seq<Seq<u64>>)
    ensures
        of_stream_at(labels, positions, stream) == of_stream(
            positions.map_values(|p: int| labels[p]),
            stream,
        ),
    decreases positions.len(),
{
    if positions.len() > 0 {
        let all = positions.map_values(|p: int| labels[p]);
        lemma_of_stream_at(labels, positions.drop_last(), stream);
        assert(all.drop_last() =~= positions.drop_last().map_values(|p: int| labels[p]));
    }
}

/// Sorting leaves the labels of each stream in the order in which they came.
pub proof fn law_sorting_keeps_each_stream(labels: Seq<JsonView>, stream: Seq<Seq<u64>>)
    ensures
        of_stream(sorted_labels(labels), stream) == of_stream(labels, stream),
{
    lemma_sorted_positions_of_stream(labels, labels.len(), stream);
    lemma_of_stream_at(labels, sorted_positions(label_orders(labels), labels.len()), stream);
    assert(labels.take(labels.len() as int) =~= labels);
}

/// Whether labels are in ascending order of their streams.
spec fn is_sorted(labels: Seq<JsonView>) -> bool {
    forall|i: int, j: int|
        0 <= i < j < labels.len() ==> lists_order(
            label_order(#[trigger] labels[i]),
            label_order(#[trigger] labels[j]),
        ) != Rank::Greater
}

proof fn lemma_sorted_labels_are_sorted(labels: Seq<JsonView>)
    ensures
        is_sorted(sorted_labels(labels)),
{
    let keys = label_orders(labels);
    let order = sorted_positions(keys, labels.len());
    law_sort_is_stable(keys, labels.len());
    assert forall|i: int, j: int| 0 <= i < j < sorted_labels(labels).len() implies lists_order(
        label_order(#[trigger] sorted_labels(labels)[i]),
        label_order(#[trigger] sorted_labels(labels)[j]),
    ) != Rank::Greater by {
        assert(in_order(keys, order[i], order[j]));
        assert(keys[order[i]] == label_order(labels[order[i]]));
        assert(keys[order[j]] == label_order(labels[order[j]]));
    }
}

/// A stream that has labels has one of them somewhere in the list.
proof fn lemma_stream_is_there(labels: Seq<JsonView>, stream: Seq<Seq<u64>>) -> (i: int)
    requires
        of_stream(labels, stream).len() > 0,
    ensures
        0 <= i < labels.len(),
        label_order(labels[i]) == stream,
    decreases labels.len(),
{
    if label_order(labels.last()) == stream {
        labels.len() - 1
    } else {
        lemma_stream_is_there(labels.drop_last(), stream)
    }
}

/// The last labels of two sorted lists that agree stream by stream are of the same stream.
proof fn lemma_last_is_not_before(a: Seq<JsonView>, b: Seq<JsonView>)
    requires
        a.len() > 0,
        is_sorted(b),
        of_stream(a, label_order(a.last())) == of_stream(b, label_order(a.last())),
    ensures
        b.len() > 0,
        lists_order(label_order(a.last()), label_order(b.last())) != Rank::Greater,
{
    let stream = label_order(a.last());
    assert(of_stream(a, stream).last() == a.last());
    let i = lemma_stream_is_there(b, stream);
    let last = b.len() - 1;
    if i < last {
        assert(lists_order(label_order(b[i]), label_order(b[last])) != Rank::Greater);
    } else {
        lemma_lists_equal(label_order(b[i]), label_order(b[last]));
    }
}

proof fn lemma_sorted_by_stream_is_unique(a: Seq<JsonView>, b: Seq<JsonView>)
    requires
        is_sorted(a),
        is_sorted(b),
        forall|stream: Seq<Seq<u64>>| #[trigger] of_stream(a, stream) == of_stream(b, stream),
    ensures
        a == b,
    decreases a.len(),
{
    if a.len() == 0 {
        if b.len() > 0 {
            let stream = label_order(b.last());
            assert(of_stream(b, stream).last() == b.last());
            assert(of_stream(a, stream).len() == 0);
        }
        assert(a =~= b);
    } else {
        let stream = label_order(a.last());
        lemma_last_is_not_before(a, b);
        assert(of_stream(a, label_order(b.last())) == of_stream(b, label_order(b.last())));
        lemma_last_is_not_before(b, a);
        lemma_lists_flip(stream, label_order(b.last()));
        lemma_lists_equal(stream, label_order(b.last()));
        assert(label_order(b.last()) == stream);
        assert(of_stream(a, stream).last() == a.last());
        assert(of_stream(b, stream).last() == b.last());
        let p = a.drop_last();
        let q = b.drop_last();
        assert forall|i: int, j: int| 0 <= i < j < p.len() implies lists_order(
            label_order(#[trigger] p[i]),
            label_order(#[trigger] p[j]),
        ) != Rank::Greater by {
            assert(lists_order(label_order(a[i]), label_order(a[j])) != Rank::Greater);
        }
        assert forall|i: int, j: int| 0 <= i < j < q.len() implies lists_order(
            label_order(#[trigger] q[i]),
            label_order(#[trigger] q[j]),
        ) != Rank::Greater by {
            assert(lists_order(label_order(b[i]), label_order(b[j])) != Rank::Greater);
        }
        assert forall|s: Seq<Seq<u64>>| #[trigger] of_stream(p, s) == of_stream(q, s) by {
            assert(of_stream(a, s) == of_stream(b, s));
            if s == stream {
                assert(of_stream(a, s).drop_last() =~= of_stream(p, s));
                assert(of_stream(b, s).drop_last() =~= of_stream(q, s));
            } else {
                assert(of_stream(a, s) =~= of_stream(p, s));
                assert(of_stream(b, s) =~= of_stream(q, s));
            }
        }
        lemma_sorted_by_stream_is_unique(p, q);
        assert(a =~= p.push(a.last()));
        assert(b =~= q.push(b.last()));
    }
}

/// Two label lists are the same once normalized exactly if each stream has the same labels in the
/// same order in both: the order in which the streams came does not matter.
pub proof fn law_only_the_order_within_a_stream_matters(a: Seq<JsonView>, b: Seq<JsonView>)
    ensures
        normalized_labels(Some(JsonView::Array(a))) == normalized_labels(Some(JsonView::Array(b)))
            <==> forall|stream: Seq<Seq<u64>>| #[trigger]
            of_stream(objects_among(a), stream) == of_stream(objects_among(b), stream),
{
    let p = objects_among(a);
    let q = objects_among(b);
    let same = forall|stream: Seq<Seq<u64>>| #[trigger]
        of_stream(p, stream) == of_stream(q, stream);
    if sorted_labels(p) == sorted_labels(q) {
        assert forall|stream: Seq<Seq<u64>>| #[trigger] of_stream(p, stream) == of_stream(
            q,
            stream,
        ) by {
            law_sorting_keeps_each_stream(p, stream);
            law_sorting_keeps_each_stream(q, stream);
        }
    }
    if same {
        lemma_sorted_labels_are_sorted(p);
        lemma_sorted_labels_are_sorted(q);
        assert forall|stream: Seq<Seq<u64>>| #[trigger]
            of_stream(sorted_labels(p), stream) == of_stream(sorted_labels(q), stream) by {
            law_sorting_keeps_each_stream(p, stream);
            law_sorting_keeps_each_stream(q, stream);
            assert(of_stream(p, stream) == of_stream(q, stream));
        }
        lemma_sorted_by_stream_is_unique(sorted_labels(p), sorted_labels(q));
    }
}

/// Whether no two label objects of a list are of the same stream.
pub open spec fn streams_are_distinct(items: Seq<JsonView>) -> bool {
    forall|i: int, j: int|
        0 <= i < j < items.len() && items[i] is Object && items[j] is Object ==> label_order(
            #[trigger] items[i],
        ) != label_order(#[trigger] items[j])
}

/// The labels of a stream are those objects of a list that are of the stream.
proof fn lemma_of_stream_holds(items: Seq<JsonView>, stream: Seq<Seq<u64>>, x: JsonView)
    ensures
        of_stream(objects_among(items), stream).contains(x) <==> items.contains(x) && x is Object
            && label_order(x) == stream,
    decreases items.len(),
{
    if items.len() > 0 {
        let front = items.drop_last();
        let last = items.last();
        lemma_of_stream_holds(front, stream, x);
        assert(items =~= front + seq![last]);
        lemma_seq_concat_contains_all_elements(front, seq![last], x);
        assert(seq![last].contains(x) <==> last == x) by {
            assert(seq![last][0] == last);
        }
        if last is Object {
            let found = objects_among(front);
            assert(objects_among(items).drop_last() =~= found);
            if label_order(last) == stream {
                lemma_seq_concat_contains_all_elements(of_stream(found, stream), seq![last], x);
            } else {
                assert(of_stream(objects_among(items), stream) =~= of_stream(found, stream));
            }
        }
    } else {
        assert(!of_stream(objects_among(items), stream).contains(x));
        assert(!items.contains(x));
    }
}

proof fn lemma_distinct_streams(items: Seq<JsonView>, stream: Seq<Seq<u64>>)
    requires
        streams_are_distinct(items),
    ensures
        of_stream(objects_among(items), stream).len() <= 1,
    decreases items.len(),
{
    if items.len() > 0 {
        let front = items.drop_last();
        let last = items.last();
        assert forall|i: int, j: int|
            0 <= i < j < front.len() && front[i] is Object && front[j] is Object implies label_order(
            #[trigger] front[i],
        ) != label_order(#[trigger] front[j]) by {
            assert(label_order(items[i]) != label_order(items[j]));
        }
        lemma_distinct_streams(front, stream);
        if last is Object {
            let found = objects_among(front);
            assert(objects_among(items).drop_last() =~= found);
            if label_order(last) == stream && of_stream(found, stream).len() > 0 {
                let x = of_stream(found, stream)[0];
                assert(of_stream(found, stream).contains(x));
                lemma_of_stream_holds(front, stream, x);
                let k = choose|k: int| 0 <= k < front.len() && front[k] == x;
                assert(label_order(items[k]) != label_order(items[items.len() - 1]));
            }
        }
    }
}

/// Two label lists that hold the same, with no two labels of the same stream, are the same once
/// normalized, whatever order the labels came in.
pub proof fn law_label_order_is_normalized(a: Seq<JsonView>, b: Seq<JsonView>)
    requires
        forall|x: JsonView| a.contains(x) <==> b.contains(x),
        streams_are_distinct(a),
        streams_are_distinct(b),
    ensures
        normalized_labels(Some(JsonView::Array(a))) == normalized_labels(Some(JsonView::Array(b))),
{
    let p = objects_among(a);
    let q = objects_among(b);
    assert forall|stream: Seq<Seq<u64>>| #[trigger] of_stream(p, stream) == of_stream(
        q,
        stream,
    ) by {
        let x = of_stream(p, stream);
        let y = of_stream(q, stream);
        lemma_distinct_streams(a, stream);
        lemma_distinct_streams(b, stream);
        if x.len() == 1 {
            assert(x.contains(x[0]));
            lemma_of_stream_holds(a, stream, x[0]);
            assert(a.contains(x[0]));
            lemma_of_stream_holds(b, stream, x[0]);
        }
        if y.len() == 1 {
            assert(y.contains(y[0]));
            lemma_of_stream_holds(b, stream, y[0]);
            assert(b.contains(y[0]));
            lemma_of_stream_holds(a, stream, y[0]);
        }
        assert(x =~= y);
    }
    law_only_the_order_within_a_stream_matters(a, b);
}

} // verus!
