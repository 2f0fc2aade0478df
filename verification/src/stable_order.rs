//! The stable order of rows under their sort keys: what it is, that there is
//! one and only one, and what holds of it.

use crate::sort_key::{
    key_before, lemma_key_before_asymmetric, lemma_key_before_total, lemma_key_before_transitive,
    SortKey,
};
use vstd::prelude::*;

verus! {

/// The keys as values of the model, one for each row.
pub open spec fn key_views(keys: Seq<SortKey>) -> Seq<Option<Seq<u8>>> {
    Seq::new(keys.len(), |i: int| keys[i]@)
}

/// Row `a` is placed before row `b`: its key comes first in the direction of
/// the sort, or the keys are equal and `a` stood before `b`.
pub open spec fn ranks_before(keys: Seq<Option<Seq<u8>>>, descending: bool, a: int, b: int) -> bool {
    if keys[a] == keys[b] {
        a < b
    } else if descending {
        key_before(keys[b], keys[a])
    } else {
        key_before(keys[a], keys[b])
    }
}

/// Each row of `order` is placed before all that follow it.
pub open spec fn is_ranked(order: Seq<usize>, keys: Seq<Option<Seq<u8>>>, descending: bool) -> bool {
    forall|i: int, j: int|
        0 <= i < j < order.len() ==> ranks_before(
            keys,
            descending,
            #[trigger] order[i] as int,
            #[trigger] order[j] as int,
        )
}

/// `order` lists every row of `keys` once, each row placed before all that
/// follow it. `order[i]` is the row that comes to stand at position `i`.
pub open spec fn is_stable_order(
    order: Seq<usize>,
    keys: Seq<Option<Seq<u8>>>,
    descending: bool,
) -> bool {
    &&& order.len() == keys.len()
    &&& forall|i: int| 0 <= i < order.len() ==> (#[trigger] order[i]) < keys.len()
    &&& forall|r: usize| r < keys.len() ==> #[trigger] order.contains(r)
    &&& is_ranked(order, keys, descending)
}

/// The stable order of the rows: the one sequence that `is_stable_order`
/// accepts (see `lemma_stable_order_unique`).
pub open spec fn stable_order(keys: Seq<Option<Seq<u8>>>, descending: bool) -> Seq<usize> {
    choose|order: Seq<usize>| is_stable_order(order, keys, descending)
}

/// The rows in the given order: position `i` holds row `order[i]`.
pub open spec fn reordered<T>(rows: Seq<T>, order: Seq<usize>) -> Seq<T> {
    Seq::new(order.len(), |i: int| rows[order[i] as int])
}

/// The rows sorted stably by their keys.
pub open spec fn sorted_rows<T>(rows: Seq<T>, keys: Seq<Option<Seq<u8>>>, descending: bool) -> Seq<
    T,
> {
    reordered(rows, stable_order(keys, descending))
}

/// Placement is transitive.
pub proof fn lemma_ranks_before_transitive(
    keys: Seq<Option<Seq<u8>>>,
    descending: bool,
    a: int,
    b: int,
    c: int,
)
    requires
        ranks_before(keys, descending, a, b),
        ranks_before(keys, descending, b, c),
    ensures
        ranks_before(keys, descending, a, c),
{
    let (ka, kb, kc) = (keys[a], keys[b], keys[c]);
    if ka != kb && kb != kc {
        if descending {
            lemma_key_before_transitive(kc, kb, ka);
            lemma_key_before_asymmetric(kc, ka);
        } else {
            lemma_key_before_transitive(ka, kb, kc);
            lemma_key_before_asymmetric(ka, kc);
        }
    }
}

/// Of two different rows exactly one is placed before the other.
pub proof fn lemma_ranks_before_total(
    keys: Seq<Option<Seq<u8>>>,
    descending: bool,
    a: int,
    b: int,
)
    requires
        a != b,
    ensures
        ranks_before(keys, descending, a, b) != ranks_before(keys, descending, b, a),
{
    if keys[a] != keys[b] {
        lemma_key_before_total(keys[a], keys[b]);
        lemma_key_before_asymmetric(keys[a], keys[b]);
    }
}

proof fn lemma_orders_agree_to(
    first: Seq<usize>,
    second: Seq<usize>,
    keys: Seq<Option<Seq<u8>>>,
    descending: bool,
    n: int,
)
    requires
        is_stable_order(first, keys, descending),
        is_stable_order(second, keys, descending),
        0 <= n <= keys.len(),
    ensures
        forall|i: int| 0 <= i < n ==> first[i] == second[i],
    decreases n,
{
    if n > 0 {
        lemma_orders_agree_to(first, second, keys, descending, n - 1);
        let i = n - 1;
        let a = first[i];
        let b = second[i];
        if a != b {
            lemma_ranks_before_total(keys, descending, a as int, b as int);
            assert(second.contains(a));
            assert(first.contains(b));
            let p = choose|p: int| 0 <= p < second.len() && second[p] == a;
            let q = choose|q: int| 0 <= q < first.len() && first[q] == b;
            if p < i {
                assert(first[p] == a);
                assert(ranks_before(keys, descending, first[p] as int, first[i] as int));
            }
            if q < i {
                assert(second[q] == b);
                assert(ranks_before(keys, descending, second[q] as int, second[i] as int));
            }
            assert(ranks_before(keys, descending, second[i] as int, second[p] as int));
            assert(ranks_before(keys, descending, first[i] as int, first[q] as int));
        }
    }
}

/// The rows have one stable order only.
pub proof fn lemma_stable_order_unique(
    first: Seq<usize>,
    second: Seq<usize>,
    keys: Seq<Option<Seq<u8>>>,
    descending: bool,
)
    requires
        is_stable_order(first, keys, descending),
        is_stable_order(second, keys, descending),
    ensures
        first == second,
{
    lemma_orders_agree_to(first, second, keys, descending, keys.len() as int);
    assert(first =~= second);
}

/// A stable order names no row twice.
pub proof fn lemma_stable_order_is_permutation(
    order: Seq<usize>,
    keys: Seq<Option<Seq<u8>>>,
    descending: bool,
)
    requires
        is_stable_order(order, keys, descending),
    ensures
        order.no_duplicates(),
{
    assert forall|i: int, j: int| 0 <= i < order.len() && 0 <= j < order.len() && i != j implies order[i]
        != order[j] by {
        if i < j {
            assert(ranks_before(keys, descending, order[i] as int, order[j] as int));
        } else {
            assert(ranks_before(keys, descending, order[j] as int, order[i] as int));
        }
    }
}

/// `order` with `row` put in behind the last row that is placed before it.
spec fn with_row(order: Seq<usize>, keys: Seq<Option<Seq<u8>>>, descending: bool, row: usize) -> Seq<
    usize,
>
    decreases order.len(),
{
    if order.len() == 0 {
        seq![row]
    } else if ranks_before(keys, descending, order.last() as int, row as int) {
        order.push(row)
    } else {
        with_row(order.drop_last(), keys, descending, row).push(order.last())
    }
}

proof fn lemma_with_row(order: Seq<usize>, keys: Seq<Option<Seq<u8>>>, descending: bool, row: usize)
    requires
        is_ranked(order, keys, descending),
        !order.contains(row),
    ensures
        with_row(order, keys, descending, row).len() == order.len() + 1,
        forall|x: usize|
            with_row(order, keys, descending, row).contains(x) <==> order.contains(x) || x == row,
        is_ranked(with_row(order, keys, descending, row), keys, descending),
    decreases order.len(),
{
    let grown = with_row(order, keys, descending, row);
    if order.len() == 0 {
        assert(grown[0] == row);
    } else if ranks_before(keys, descending, order.last() as int, row as int) {
        assert(grown[order.len() as int] == row);
        assert forall|x: usize| order.contains(x) implies grown.contains(x) by {
            let i = choose|i: int| 0 <= i < order.len() && order[i] == x;
            assert(grown[i] == x);
        }
        assert forall|i: int, j: int| 0 <= i < j < grown.len() implies ranks_before(
            keys,
            descending,
            #[trigger] grown[i] as int,
            #[trigger] grown[j] as int,
        ) by {
            if j == order.len() {
                if i < order.len() - 1 {
                    assert(ranks_before(keys, descending, order[i] as int, order.last() as int));
                    lemma_ranks_before_transitive(
                        keys,
                        descending,
                        order[i] as int,
                        order.last() as int,
                        row as int,
                    );
                }
            } else {
                assert(grown[i] == order[i] && grown[j] == order[j]);
            }
        }
    } else {
        let front = order.drop_last();
        let last = order.last();
        assert(order.contains(last));
        assert forall|i: int, j: int| 0 <= i < j < front.len() implies ranks_before(
            keys,
            descending,
            #[trigger] front[i] as int,
            #[trigger] front[j] as int,
        ) by {
            assert(front[i] == order[i] && front[j] == order[j]);
        }
        assert(!front.contains(row)) by {
            if front.contains(row) {
                let i = choose|i: int| 0 <= i < front.len() && front[i] == row;
                assert(order[i] == row);
            }
        }
        lemma_with_row(front, keys, descending, row);
        let inner = with_row(front, keys, descending, row);
        lemma_ranks_before_total(keys, descending, last as int, row as int);
        assert forall|x: usize| grown.contains(x) <==> order.contains(x) || x == row by {
            if grown.contains(x) {
                let i = choose|i: int| 0 <= i < grown.len() && grown[i] == x;
                if i < inner.len() {
                    assert(inner[i] == x);
                    assert(inner.contains(x));
                    if front.contains(x) {
                        let k = choose|k: int| 0 <= k < front.len() && front[k] == x;
                        assert(order[k] == x);
                    }
                }
            }
            if order.contains(x) {
                let k = choose|k: int| 0 <= k < order.len() && order[k] == x;
                if k < front.len() {
                    assert(front[k] == x);
                    assert(front.contains(x));
                    assert(inner.contains(x));
                    let i = choose|i: int| 0 <= i < inner.len() && inner[i] == x;
                    assert(grown[i] == x);
                } else {
                    assert(grown[inner.len() as int] == x);
                }
            }
            if x == row {
                assert(inner.contains(row));
                let i = choose|i: int| 0 <= i < inner.len() && inner[i] == x;
                assert(grown[i] == x);
            }
        }
        assert forall|i: int, j: int| 0 <= i < j < grown.len() implies ranks_before(
            keys,
            descending,
            #[trigger] grown[i] as int,
            #[trigger] grown[j] as int,
        ) by {
            if j == inner.len() {
                let x = grown[i];
                assert(inner[i] == x);
                assert(inner.contains(x));
                if x != row {
                    assert(front.contains(x));
                    let k = choose|k: int| 0 <= k < front.len() && front[k] == x;
                    assert(ranks_before(keys, descending, order[k] as int, order.last() as int));
                }
            } else {
                assert(grown[i] == inner[i] && grown[j] == inner[j]);
            }
        }
    }
}

/// Every list of keys has a stable order, so `stable_order` is one.
pub proof fn lemma_stable_order_exists(keys: Seq<Option<Seq<u8>>>, descending: bool)
    requires
        keys.len() <= usize::MAX,
    ensures
        is_stable_order(stable_order(keys, descending), keys, descending),
    decreases keys.len(),
{
    if keys.len() == 0 {
        assert(is_stable_order(Seq::<usize>::empty(), keys, descending));
    } else {
        let front = keys.drop_last();
        let row = (keys.len() - 1) as usize;
        lemma_stable_order_exists(front, descending);
        let order = stable_order(front, descending);
        assert(is_ranked(order, keys, descending)) by {
            assert forall|i: int, j: int| 0 <= i < j < order.len() implies ranks_before(
                keys,
                descending,
                #[trigger] order[i] as int,
                #[trigger] order[j] as int,
            ) by {
                assert(ranks_before(front, descending, order[i] as int, order[j] as int));
            }
        }
        assert(!order.contains(row)) by {
            if order.contains(row) {
                let i = choose|i: int| 0 <= i < order.len() && order[i] == row;
                assert(order[i] < front.len());
            }
        }
        lemma_with_row(order, keys, descending, row);
        let grown = with_row(order, keys, descending, row);
        assert forall|i: int| 0 <= i < grown.len() implies (#[trigger] grown[i]) < keys.len() by {
            let x = grown[i];
            assert(grown.contains(x));
            if x != row {
                assert(order.contains(x));
                let k = choose|k: int| 0 <= k < order.len() && order[k] == x;
                assert(order[k] < front.len());
            }
        }
        assert forall|r: usize| r < keys.len() implies #[trigger] grown.contains(r) by {
            if r != row {
                assert(r < front.len());
                assert(order.contains(r));
            }
        }
        assert(is_stable_order(grown, keys, descending));
    }
}

/// The stable order runs in the direction of the sort: of two positions the
/// later never holds the row whose key comes first in that direction. Rows
/// with equal keys stand as they stood before, in both directions.
pub proof fn lemma_stable_order_runs(
    keys: Seq<Option<Seq<u8>>>,
    descending: bool,
    i: int,
    j: int,
)
    requires
        keys.len() <= usize::MAX,
        0 <= i < j < keys.len(),
    ensures
        ({
            let order = stable_order(keys, descending);
            let (earlier, later) = (order[i] as int, order[j] as int);
            &&& 0 <= earlier < keys.len() && 0 <= later < keys.len()
            &&& if descending {
                !key_before(keys[earlier], keys[later])
            } else {
                !key_before(keys[later], keys[earlier])
            }
            &&& keys[earlier] == keys[later] ==> earlier < later
        }),
{
    lemma_stable_order_exists(keys, descending);
    let order = stable_order(keys, descending);
    assert(ranks_before(keys, descending, order[i] as int, order[j] as int));
    lemma_key_before_asymmetric(keys[order[i] as int], keys[order[j] as int]);
}

/// Rows without a key stay together and as they stood before: in an
/// ascending sort they come ahead of every row with a key, in a descending
/// sort behind every such row.
pub proof fn lemma_absent_rows_stay_together(
    keys: Seq<Option<Seq<u8>>>,
    descending: bool,
    i: int,
    j: int,
)
    requires
        keys.len() <= usize::MAX,
        0 <= i < j < keys.len(),
    ensures
        ({
            let order = stable_order(keys, descending);
            let (earlier, later) = (order[i] as int, order[j] as int);
            &&& keys[earlier] is None && keys[later] is None ==> earlier < later
            &&& !descending && keys[later] is None ==> keys[earlier] is None
            &&& descending && keys[earlier] is None ==> keys[later] is None
        }),
{
    lemma_stable_order_exists(keys, descending);
    let order = stable_order(keys, descending);
    assert(ranks_before(keys, descending, order[i] as int, order[j] as int));
}

/// Rows put into an order that names every position once are the same rows:
/// none is lost, none is there twice.
pub proof fn lemma_reordered_keeps_rows<T>(rows: Seq<T>, order: Seq<usize>)
    requires
        order.len() == rows.len(),
        rows.len() <= usize::MAX,
        forall|i: int| 0 <= i < order.len() ==> (#[trigger] order[i]) < rows.len(),
        forall|r: usize| r < rows.len() ==> #[trigger] order.contains(r),
        order.no_duplicates(),
    ensures
        reordered(rows, order).to_multiset() == rows.to_multiset(),
    decreases rows.len(),
{
    broadcast use {
        vstd::seq_lib::to_multiset_build,
        vstd::seq_lib::to_multiset_remove,
        vstd::seq_lib::to_multiset_contains,
        vstd::multiset::group_multiset_axioms,
    };

    let moved = reordered(rows, order);
    if rows.len() == 0 {
        assert(moved =~= rows);
    } else {
        let last = (rows.len() - 1) as usize;
        assert(order.contains(last));
        let p = choose|p: int| 0 <= p < order.len() && order[p] == last;
        let rest = order.remove(p);
        let front = rows.drop_last();
        assert forall|i: int| 0 <= i < rest.len() implies (#[trigger] rest[i]) < front.len() by {
            let k = if i < p { i } else { i + 1 };
            assert(rest[i] == order[k]);
            assert(order[k] != order[p]);
        }
        assert forall|r: usize| r < front.len() implies #[trigger] rest.contains(r) by {
            assert(order.contains(r));
            let k = choose|k: int| 0 <= k < order.len() && order[k] == r;
            let i = if k < p { k } else { k - 1 };
            assert(rest[i] == r);
        }
        assert(rest.no_duplicates()) by {
            assert forall|i: int, j: int| 0 <= i < rest.len() && 0 <= j < rest.len() && i != j implies rest[i]
                != rest[j] by {
                let a = if i < p { i } else { i + 1 };
                let b = if j < p { j } else { j + 1 };
                assert(rest[i] == order[a] && rest[j] == order[b]);
            }
        }
        lemma_reordered_keeps_rows(front, rest);
        assert(moved.remove(p) =~= reordered(front, rest));
        assert(moved[p] == rows.last());
        assert(moved.contains(rows.last()));
        assert(rows =~= front.push(rows.last()));
        assert(moved.to_multiset() =~= rows.to_multiset());
    }
}

/// Sorting keeps the rows: the sorted rows are the rows that there were,
/// each as often as it was there.
pub proof fn lemma_sorted_rows_keeps_rows<T>(
    rows: Seq<T>,
    keys: Seq<Option<Seq<u8>>>,
    descending: bool,
)
    requires
        keys.len() == rows.len(),
        keys.len() <= usize::MAX,
    ensures
        sorted_rows(rows, keys, descending).len() == rows.len(),
        sorted_rows(rows, keys, descending).to_multiset() == rows.to_multiset(),
{
    lemma_stable_order_exists(keys, descending);
    lemma_stable_order_is_permutation(stable_order(keys, descending), keys, descending);
    lemma_reordered_keeps_rows(rows, stable_order(keys, descending));
}

} // verus!
