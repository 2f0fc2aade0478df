//! Sorting rows stably by their keys: a merge sort that finds the stable
//! order, and the moving of the rows into it.

use crate::sort_key::{
    key_before, lemma_key_before_asymmetric, lemma_key_before_total, SortKey,
};
use crate::stable_order::{
    is_ranked, is_stable_order, key_views, lemma_ranks_before_transitive,
    lemma_stable_order_is_permutation, lemma_stable_order_unique, ranks_before, reordered,
    sorted_rows, stable_order,
};
use vstd::prelude::*;
use vstd::slice::slice_subrange;

verus! {

/// `<[T]>::swap` of std: exchanges the elements at `a` and `b`, both of which
/// must be in bounds, and leaves every other element where it is.
pub assume_specification<X>[ <[X]>::swap ](slice: &mut [X], a: usize, b: usize)
    requires
        a < old(slice)@.len(),
        b < old(slice)@.len(),
    ensures
        final(slice)@ == old(slice)@.update(a as int, old(slice)@[b as int]).update(
            b as int,
            old(slice)@[a as int],
        ),
;

/// The vector `0, 1, .., n - 1`.
fn identity_order(n: usize) -> (order: Vec<usize>)
    ensures
        order@.len() == n,
        forall|p: int| 0 <= p < n ==> order@[p] == p,
{
    let mut order: Vec<usize> = Vec::new();
    let mut i: usize = 0;
    while i < n
        invariant
            i <= n,
            order@.len() == i,
            forall|p: int| 0 <= p < i ==> order@[p] == p,
        decreases n - i,
    {
        order.push(i);
        i += 1;
    }
    order
}

/// Whether key `a` comes strictly first in the direction of the sort.
fn key_leads(a: &SortKey, b: &SortKey, descending: bool) -> (leads: bool)
    ensures
        leads == if descending {
            key_before(b@, a@)
        } else {
            key_before(a@, b@)
        },
{
    if descending {
        b.comes_before(a)
    } else {
        a.comes_before(b)
    }
}

/// `run` lists the rows from `first` on, as many as it is long, each of them
/// somewhere.
spec fn lists_rows(run: Seq<usize>, first: int) -> bool {
    &&& forall|q: int| 0 <= q < run.len() ==> first <= (#[trigger] run[q]) < first + run.len()
    &&& forall|r: usize| first <= r < first + run.len() ==> #[trigger] run.contains(r)
}

proof fn lemma_push_contains(run: Seq<usize>, row: usize)
    ensures
        forall|x: usize| #[trigger] run.push(row).contains(x) <==> run.contains(x) || x == row,
{
    let grown = run.push(row);
    assert forall|x: usize| #[trigger] grown.contains(x) <==> run.contains(x) || x == row by {
        if run.contains(x) {
            let q = choose|q: int| 0 <= q < run.len() && run[q] == x;
            assert(grown[q] == x);
        }
        if x == row {
            assert(grown[run.len() as int] == x);
        }
        if grown.contains(x) {
            let q = choose|q: int| 0 <= q < grown.len() && grown[q] == x;
            if q < run.len() {
                assert(run[q] == x);
            }
        }
    }
}

/// Merges two ranked runs into one. Every row of `left` stood before every
/// row of `right`, so between rows with equal keys the one of `left` goes
/// first.
fn merge_runs(
    keys: &[SortKey],
    descending: bool,
    left: &[usize],
    right: &[usize],
    merged: &mut Vec<usize>,
)
    requires
        forall|a: int| 0 <= a < left@.len() ==> (#[trigger] left@[a]) < keys@.len(),
        forall|b: int| 0 <= b < right@.len() ==> (#[trigger] right@[b]) < keys@.len(),
        forall|a: int, b: int|
            0 <= a < left@.len() && 0 <= b < right@.len() ==> (#[trigger] left@[a]) < (
            #[trigger] right@[b]),
        is_ranked(left@, key_views(keys@), descending),
        is_ranked(right@, key_views(keys@), descending),
    ensures
        final(merged)@.len() == left@.len() + right@.len(),
        is_ranked(final(merged)@, key_views(keys@), descending),
        forall|x: usize|
            final(merged)@.contains(x) <==> left@.contains(x) || right@.contains(x),
{
    let ghost kv = key_views(keys@);
    merged.clear();
    let mut i: usize = 0;
    let mut j: usize = 0;
    while i < left.len() || j < right.len()
        invariant
            i <= left@.len(),
            j <= right@.len(),
            merged@.len() == i + j,
            kv == key_views(keys@),
            forall|a: int| 0 <= a < left@.len() ==> (#[trigger] left@[a]) < keys@.len(),
            forall|b: int| 0 <= b < right@.len() ==> (#[trigger] right@[b]) < keys@.len(),
            forall|a: int, b: int|
                0 <= a < left@.len() && 0 <= b < right@.len() ==> (#[trigger] left@[a]) < (
                #[trigger] right@[b]),
            is_ranked(left@, kv, descending),
            is_ranked(right@, kv, descending),
            is_ranked(merged@, kv, descending),
            forall|q: int|
                0 <= q < merged@.len() && i < left@.len() ==> ranks_before(
                    kv,
                    descending,
                    #[trigger] merged@[q] as int,
                    left@[i as int] as int,
                ),
            forall|q: int|
                0 <= q < merged@.len() && j < right@.len() ==> ranks_before(
                    kv,
                    descending,
                    #[trigger] merged@[q] as int,
                    right@[j as int] as int,
                ),
            forall|x: usize|
                merged@.contains(x) <==> left@.take(i as int).contains(x) || right@.take(
                    j as int,
                ).contains(x),
        decreases left@.len() - i + right@.len() - j,
    {
        let ghost before = merged@;
        let from_right = if i == left.len() {
            true
        } else if j == right.len() {
            false
        } else {
            key_leads(&keys[right[j]], &keys[left[i]], descending)
        };
        if from_right {
            let row = right[j];
            proof {
                lemma_push_contains(before, row);
                lemma_push_contains(right@.take(j as int), row);
                assert(right@.take(j + 1) =~= right@.take(j as int).push(row));
                if i < left@.len() {
                    lemma_key_before_asymmetric(kv[row as int], kv[row as int]);
                    assert(ranks_before(kv, descending, row as int, left@[i as int] as int));
                }
                if j + 1 < right@.len() {
                    assert(ranks_before(kv, descending, right@[j as int] as int, right@[j + 1] as int));
                    assert forall|q: int| 0 <= q < before.len() implies ranks_before(
                        kv,
                        descending,
                        #[trigger] before[q] as int,
                        right@[j + 1] as int,
                    ) by {
                        lemma_ranks_before_transitive(
                            kv,
                            descending,
                            before[q] as int,
                            row as int,
                            right@[j + 1] as int,
                        );
                    }
                }
            }
            merged.push(row);
            j += 1;
        } else {
            let row = left[i];
            proof {
                lemma_push_contains(before, row);
                lemma_push_contains(left@.take(i as int), row);
                assert(left@.take(i + 1) =~= left@.take(i as int).push(row));
                if j < right@.len() {
                    let other = right@[j as int];
                    if kv[row as int] != kv[other as int] {
                        lemma_key_before_total(kv[row as int], kv[other as int]);
                    }
                    assert(ranks_before(kv, descending, row as int, other as int));
                }
                if i + 1 < left@.len() {
                    assert(ranks_before(kv, descending, left@[i as int] as int, left@[i + 1] as int));
                    assert forall|q: int| 0 <= q < before.len() implies ranks_before(
                        kv,
                        descending,
                        #[trigger] before[q] as int,
                        left@[i + 1] as int,
                    ) by {
                        lemma_ranks_before_transitive(
                            kv,
                            descending,
                            before[q] as int,
                            row as int,
                            left@[i + 1] as int,
                        );
                    }
                }
            }
            merged.push(row);
            i += 1;
        }
        proof {
            assert forall|a: int, b: int| 0 <= a < b < merged@.len() implies ranks_before(
                kv,
                descending,
                #[trigger] merged@[a] as int,
                #[trigger] merged@[b] as int,
            ) by {
                if b < before.len() {
                    assert(merged@[a] == before[a] && merged@[b] == before[b]);
                } else {
                    assert(merged@[a] == before[a]);
                }
            }
        }
    }
    assert(left@.take(i as int) =~= left@);
    assert(right@.take(j as int) =~= right@);
}

/// Sorts the rows at the positions from `lo` up to `hi`, which stand there
/// in their own order, by merging the sorted halves.
fn sort_range(
    keys: &[SortKey],
    descending: bool,
    order: &mut Vec<usize>,
    lo: usize,
    hi: usize,
    spare: &mut Vec<usize>,
)
    requires
        lo <= hi <= old(order)@.len() == keys@.len(),
        forall|p: int| lo <= p < hi ==> old(order)@[p] == p,
    ensures
        final(order)@.len() == old(order)@.len(),
        forall|p: int|
            0 <= p < lo || hi <= p < old(order)@.len() ==> final(order)@[p] == old(order)@[p],
        lists_rows(final(order)@.subrange(lo as int, hi as int), lo as int),
        is_ranked(final(order)@.subrange(lo as int, hi as int), key_views(keys@), descending),
    decreases hi - lo,
{
    let ghost kv = key_views(keys@);
    if hi - lo < 2 {
        proof {
            let run = order@.subrange(lo as int, hi as int);
            assert forall|r: usize| lo <= r < lo + run.len() implies #[trigger] run.contains(r) by {
                assert(run[0] == r);
            }
        }
        return;
    }
    let mid = lo + (hi - lo) / 2;
    sort_range(keys, descending, order, lo, mid, spare);
    let ghost half = order@;
    sort_range(keys, descending, order, mid, hi, spare);
    let ghost halves = order@;
    proof {
        assert(halves.subrange(lo as int, mid as int) =~= half.subrange(lo as int, mid as int));
    }
    let left = slice_subrange(order.as_slice(), lo, mid);
    let right = slice_subrange(order.as_slice(), mid, hi);
    merge_runs(keys, descending, left, right, spare);
    let ghost run = spare@;
    let mut q: usize = 0;
    while q < hi - lo
        invariant
            lo <= hi <= order@.len(),
            order@.len() == halves.len(),
            spare@ == run,
            run.len() == hi - lo,
            q <= hi - lo,
            forall|p: int| 0 <= p < lo || hi <= p < order@.len() ==> order@[p] == halves[p],
            forall|p: int| 0 <= p < q ==> order@[lo + p] == run[p],
        decreases hi - lo - q,
    {
        order.set(lo + q, spare[q]);
        q += 1;
    }
    proof {
        assert(order@.subrange(lo as int, hi as int) =~= run);
        let left = halves.subrange(lo as int, mid as int);
        let right = halves.subrange(mid as int, hi as int);
        assert forall|p: int| 0 <= p < run.len() implies lo <= (#[trigger] run[p]) < lo + run.len() by {
            let x = run[p];
            assert(run.contains(x));
            if left.contains(x) {
                let a = choose|a: int| 0 <= a < left.len() && left[a] == x;
                assert(lo <= left[a] < lo + left.len());
            } else {
                let b = choose|b: int| 0 <= b < right.len() && right[b] == x;
                assert(mid <= right[b] < mid + right.len());
            }
        }
        assert forall|r: usize| lo <= r < lo + run.len() implies #[trigger] run.contains(r) by {
            if r < mid {
                assert(left.contains(r));
            } else {
                assert(right.contains(r));
            }
        }
    }
}

/// Computes the stable order of the rows under `keys`: ascending, or
/// descending where `descending` is set. Rows with equal keys keep their
/// relative order in both directions.
pub fn stable_sort_order(keys: &[SortKey], descending: bool) -> (order: Vec<usize>)
    ensures
        is_stable_order(order@, key_views(keys@), descending),
        order@ == stable_order(key_views(keys@), descending),
{
    let n = keys.len();
    let ghost kv = key_views(keys@);
    let mut order = identity_order(n);
    let mut spare: Vec<usize> = Vec::new();
    sort_range(keys, descending, &mut order, 0, n, &mut spare);
    proof {
        assert(order@.subrange(0, n as int) =~= order@);
        lemma_stable_order_unique(order@, stable_order(kv, descending), kv, descending);
    }
    order
}

/// Moves the rows into the given order: afterwards position `i` holds the
/// row that stood at `order[i]`. `order` must name every position once.
pub fn reorder_rows<T>(rows: &mut [T], order: &[usize])
    requires
        order@.len() == old(rows)@.len(),
        forall|i: int| 0 <= i < order@.len() ==> (#[trigger] order@[i]) < order@.len(),
        order@.no_duplicates(),
    ensures
        final(rows)@ == reordered(old(rows)@, order@),
{
    let n = rows.len();
    let ghost before = rows@;
    // at[p] is the position that the row now at p came from; pos is its inverse.
    let mut at = identity_order(n);
    let mut pos = identity_order(n);
    let mut i: usize = 0;
    while i < n
        invariant
            i <= n,
            n == before.len(),
            rows@.len() == n,
            order@.len() == n,
            at@.len() == n,
            pos@.len() == n,
            forall|k: int| 0 <= k < n ==> (#[trigger] order@[k]) < n,
            order@.no_duplicates(),
            forall|p: int| 0 <= p < n ==> (#[trigger] at@[p]) < n && pos@[at@[p] as int] == p,
            forall|r: int| 0 <= r < n ==> (#[trigger] pos@[r]) < n && at@[pos@[r] as int] == r,
            forall|p: int| 0 <= p < n ==> #[trigger] rows@[p] == before[at@[p] as int],
            forall|p: int| 0 <= p < i ==> at@[p] == order@[p],
        decreases n - i,
    {
        let r = order[i];
        let p = pos[r];
        let q = at[i];
        proof {
            if p < i {
                assert(at@[p as int] == order@[p as int]);
                assert(order@[p as int] == order@[i as int]);
            }
        }
        rows.swap(i, p);
        at.set(i, r);
        at.set(p, q);
        pos.set(r, i);
        pos.set(q, p);
        i += 1;
    }
    assert(rows@ =~= reordered(before, order@));
}

/// Sorts the rows stably by `keys`, where `keys[i]` is the key of `rows[i]`:
/// ascending, or descending where `descending` is set. Rows with equal keys
/// keep their relative order in both directions.
pub fn sort_by_keys<T>(rows: &mut [T], keys: &[SortKey], descending: bool)
    requires
        keys@.len() == old(rows)@.len(),
    ensures
        final(rows)@ == sorted_rows(old(rows)@, key_views(keys@), descending),
{
    let order = stable_sort_order(keys, descending);
    proof {
        lemma_stable_order_is_permutation(order@, key_views(keys@), descending);
    }
    reorder_rows(rows, order.as_slice());
}

} // verus!
