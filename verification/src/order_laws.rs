//! What the order on texts, rows and paths is: that of the first place where two of them part.

use vstd::prelude::*;

use crate::labels_corpus_check::captures::byte_codes;
use crate::labels_corpus_check::captures::path_order;
use crate::order::codes;
use crate::order::codes_order;
use crate::order::in_order;
use crate::order::law_sort_is_stable;
use crate::order::lemma_code_of_char;
use crate::order::lemma_codes_equal;
use crate::order::lemma_lists_equal;
use crate::order::lists_order;
use crate::order::sorted_positions;
use crate::order::text_before;
use crate::order::Rank;

verus! {

/// Whether two sequences agree up to a place and part there: the first one ends, or has the smaller
/// item.
pub open spec fn parts_at<T>(a: Seq<T>, b: Seq<T>, less: spec_fn(T, T) -> bool, k: int) -> bool {
    &&& 0 <= k <= a.len()
    &&& k < b.len()
    &&& forall|i: int| 0 <= i < k ==> #[trigger] a[i] == b[i]
    &&& k == a.len() || less(a[k], b[k])
}

/// Whether a sequence stands before another one, given which items are smaller.
pub open spec fn stands_before<T>(a: Seq<T>, b: Seq<T>, less: spec_fn(T, T) -> bool) -> bool {
    exists|k: int| parts_at(a, b, less, k)
}

proof fn lemma_stands_before_step<T>(a: Seq<T>, b: Seq<T>, less: spec_fn(T, T) -> bool)
    ensures
        b.len() == 0 ==> !stands_before(a, b, less),
        a.len() == 0 && b.len() > 0 ==> stands_before(a, b, less),
        a.len() > 0 && b.len() > 0 ==> (stands_before(a, b, less) <==> less(a[0], b[0]) || (a[0]
            == b[0] && stands_before(a.skip(1), b.skip(1), less))),
{
    if a.len() == 0 && b.len() > 0 {
        assert(parts_at(a, b, less, 0));
    }
    if a.len() > 0 && b.len() > 0 {
        let p = a.skip(1);
        let q = b.skip(1);
        if stands_before(a, b, less) {
            let k = choose|k: int| parts_at(a, b, less, k);
            if k > 0 {
                assert(a[0] == b[0]);
                assert forall|i: int| 0 <= i < k - 1 implies #[trigger] p[i] == q[i] by {
                    assert(a[i + 1] == b[i + 1]);
                }
                assert(parts_at(p, q, less, k - 1));
            }
        }
        if less(a[0], b[0]) {
            assert(parts_at(a, b, less, 0));
        }
        if a[0] == b[0] && stands_before(p, q, less) {
            let k = choose|k: int| parts_at(p, q, less, k);
            assert forall|i: int| 0 <= i < k + 1 implies #[trigger] a[i] == b[i] by {
                if i > 0 {
                    assert(p[i - 1] == q[i - 1]);
                }
            }
            assert(parts_at(a, b, less, k + 1));
        }
    }
}

/// Rows of numbers are ordered by the first number in which they differ; a row stands before those
/// that it begins.
pub proof fn law_rows_are_ordered_by_their_first_difference(a: Seq<u64>, b: Seq<u64>)
    ensures
        codes_order(a, b) == Rank::Less <==> stands_before(a, b, |x: u64, y: u64| x < y),
    decreases a.len(),
{
    lemma_stands_before_step(a, b, |x: u64, y: u64| x < y);
    if a.len() > 0 && b.len() > 0 {
        law_rows_are_ordered_by_their_first_difference(a.skip(1), b.skip(1));
    }
}

/// Lists of rows are ordered by the first row in which they differ.
pub proof fn law_lists_are_ordered_by_their_first_difference(a: Seq<Seq<u64>>, b: Seq<Seq<u64>>)
    ensures
        lists_order(a, b) == Rank::Less <==> stands_before(
            a,
            b,
            |x: Seq<u64>, y: Seq<u64>| stands_before(x, y, |p: u64, q: u64| p < q),
        ),
    decreases a.len(),
{
    let less = |x: Seq<u64>, y: Seq<u64>| stands_before(x, y, |p: u64, q: u64| p < q);
    lemma_stands_before_step(a, b, less);
    if a.len() > 0 && b.len() > 0 {
        law_rows_are_ordered_by_their_first_difference(a[0], b[0]);
        lemma_codes_equal(a[0], b[0]);
        law_lists_are_ordered_by_their_first_difference(a.skip(1), b.skip(1));
        assert(less(a[0], b[0]) <==> codes_order(a[0], b[0]) == Rank::Less);
    }
}

/// Texts are ordered by the first character in which they differ; a text stands before those that
/// it begins.
pub proof fn law_texts_are_ordered_by_their_first_difference(a: Seq<char>, b: Seq<char>)
    ensures
        text_before(a, b) <==> stands_before(a, b, |c: char, d: char| c < d),
{
    let x = codes(a);
    let y = codes(b);
    let rows = |p: u64, q: u64| p < q;
    let chars = |c: char, d: char| c < d;
    law_rows_are_ordered_by_their_first_difference(x, y);
    assert(x.len() == a.len() && y.len() == b.len());
    assert(forall|i: int| 0 <= i < a.len() ==> #[trigger] x[i] == a[i] as u64);
    assert(forall|i: int| 0 <= i < b.len() ==> #[trigger] y[i] == b[i] as u64);
    assert forall|k: int| parts_at(x, y, rows, k) implies parts_at(a, b, chars, k) by {
        assert forall|i: int| 0 <= i < k implies #[trigger] a[i] == b[i] by {
            assert(x[i] == y[i]);
            lemma_code_of_char(a[i], b[i]);
        }
        if k < a.len() {
            assert(x[k] < y[k]);
            lemma_code_of_char(a[k], b[k]);
        }
    }
    assert forall|k: int| parts_at(a, b, chars, k) implies parts_at(x, y, rows, k) by {
        assert forall|i: int| 0 <= i < k implies #[trigger] x[i] == y[i] by {
            assert(a[i] == b[i]);
        }
        if k < a.len() {
            assert(x[k] == a[k] as u64 && y[k] == b[k] as u64);
            lemma_code_of_char(a[k], b[k]);
        }
    }
    if stands_before(x, y, rows) {
        let k = choose|k: int| parts_at(x, y, rows, k);
        assert(parts_at(a, b, chars, k));
    }
    if stands_before(a, b, chars) {
        let k = choose|k: int| parts_at(a, b, chars, k);
        assert(parts_at(x, y, rows, k));
    }
}

/// Whether a name stands before another one by its bytes.
pub open spec fn name_before(a: Seq<u8>, b: Seq<u8>) -> bool {
    stands_before(a, b, |p: u8, q: u8| p < q)
}

proof fn lemma_names(a: Seq<u8>, b: Seq<u8>)
    ensures
        name_before(a, b) <==> stands_before(
            byte_codes(a),
            byte_codes(b),
            |p: u64, q: u64| p < q,
        ),
        byte_codes(a) == byte_codes(b) <==> a == b,
{
    let x = byte_codes(a);
    let y = byte_codes(b);
    let rows = |p: u64, q: u64| p < q;
    let bytes = |p: u8, q: u8| p < q;
    if name_before(a, b) {
        let k = choose|k: int| parts_at(a, b, bytes, k);
        assert forall|i: int| 0 <= i < k implies #[trigger] x[i] == y[i] by {
            assert(a[i] == b[i]);
        }
        assert(parts_at(x, y, rows, k));
    }
    if stands_before(x, y, rows) {
        let k = choose|k: int| parts_at(x, y, rows, k);
        assert forall|i: int| 0 <= i < k implies #[trigger] a[i] == b[i] by {
            assert(x[i] == y[i]);
        }
        assert(parts_at(a, b, bytes, k));
    }
    if x == y {
        assert(x.len() == a.len() && y.len() == b.len());
        assert forall|i: int| 0 <= i < a.len() implies a[i] == b[i] by {
            assert(x[i] == y[i]);
        }
        assert(a =~= b);
    }
}

/// Paths are ordered by the first name in which they differ, and names by the first byte in which
/// they differ.
pub proof fn law_paths_are_ordered_by_their_first_difference(a: Seq<Seq<u8>>, b: Seq<Seq<u8>>)
    ensures
        lists_order(path_order(a), path_order(b)) == Rank::Less <==> stands_before(
            a,
            b,
            |x: Seq<u8>, y: Seq<u8>| name_before(x, y),
        ),
{
    let x = path_order(a);
    let y = path_order(b);
    let rows = |p: Seq<u64>, q: Seq<u64>| stands_before(p, q, |m: u64, n: u64| m < n);
    let names = |p: Seq<u8>, q: Seq<u8>| name_before(p, q);
    law_lists_are_ordered_by_their_first_difference(x, y);
    assert(x.len() == a.len() && y.len() == b.len());
    if stands_before(x, y, rows) {
        let k = choose|k: int| parts_at(x, y, rows, k);
        assert forall|i: int| 0 <= i < k implies #[trigger] a[i] == b[i] by {
            assert(x[i] == y[i]);
            lemma_names(a[i], b[i]);
        }
        if k < a.len() {
            lemma_names(a[k], b[k]);
            assert(rows(x[k], y[k]));
            assert(names(a[k], b[k]));
        }
        assert(parts_at(a, b, names, k));
    }
    if stands_before(a, b, names) {
        let k = choose|k: int| parts_at(a, b, names, k);
        assert forall|i: int| 0 <= i < k implies #[trigger] x[i] == y[i] by {
            assert(a[i] == b[i]);
        }
        if k < a.len() {
            lemma_names(a[k], b[k]);
            assert(names(a[k], b[k]));
            assert(rows(x[k], y[k]));
        }
        assert(parts_at(x, y, rows, k));
    }
}

/// A sort lists each of the positions once; of two of them, the one with the greater key stands
/// later, and of two with the same key the later one.
pub proof fn law_sorted_positions_are_in_order(keys: Seq<Seq<Seq<u64>>>, n: nat, i: int, j: int)
    requires
        0 <= i < j < n,
    ensures
        sorted_positions(keys, n).len() == n,
        0 <= sorted_positions(keys, n)[i] < n,
        sorted_positions(keys, n)[i] != sorted_positions(keys, n)[j],
        stands_before(
            keys[sorted_positions(keys, n)[i]],
            keys[sorted_positions(keys, n)[j]],
            |x: Seq<u64>, y: Seq<u64>| stands_before(x, y, |p: u64, q: u64| p < q),
        ) || (keys[sorted_positions(keys, n)[i]] == keys[sorted_positions(keys, n)[j]]
            && sorted_positions(keys, n)[i] < sorted_positions(keys, n)[j]),
{
    law_sort_is_stable(keys, n);
    let order = sorted_positions(keys, n);
    let a = keys[order[i]];
    let b = keys[order[j]];
    assert(in_order(keys, order[i], order[j]));
    lemma_lists_equal(a, b);
    law_lists_are_ordered_by_their_first_difference(a, b);
}

} // verus!
