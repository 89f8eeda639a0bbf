//! Stable sorting of items by integer keys.

use vstd::prelude::*;

verus! {

/// Item `a` comes before item `b`: by key, and for equal keys by position.
pub open spec fn comes_before(keys: Seq<u64>, a: usize, b: usize) -> bool {
    keys[a as int] < keys[b as int] || (keys[a as int] == keys[b as int] && a < b)
}

/// `order` lists items `lo` to `hi` in the order of their keys, items with equal
/// keys in the order of their positions.
pub open spec fn orders(keys: Seq<u64>, order: Seq<usize>, lo: int, hi: int) -> bool {
    &&& order.len() == hi - lo
    &&& forall|i: int| 0 <= i < order.len() ==> lo <= #[trigger] order[i] < hi
    &&& forall|i: int, j: int|
        0 <= i < j < order.len() ==> #[trigger] comes_before(keys, order[i], order[j])
}

/// Merges two neighbouring ordered ranges.
fn merge(
    keys: &Vec<u64>,
    left: Vec<usize>,
    right: Vec<usize>,
    Ghost(lo): Ghost<int>,
    Ghost(mid): Ghost<int>,
    Ghost(hi): Ghost<int>,
) -> (r: Vec<usize>)
    requires
        0 <= lo <= mid <= hi <= keys@.len(),
        orders(keys@, left@, lo, mid),
        orders(keys@, right@, mid, hi),
    ensures
        orders(keys@, r@, lo, hi),
{
    let mut out: Vec<usize> = Vec::new();
    let mut i: usize = 0;
    let mut j: usize = 0;
    while i < left.len() || j < right.len()
        invariant
            0 <= lo <= mid <= hi <= keys@.len(),
            orders(keys@, left@, lo, mid),
            orders(keys@, right@, mid, hi),
            i <= left@.len(),
            j <= right@.len(),
            out@.len() == i + j,
            forall|k: int| 0 <= k < out@.len() ==> lo <= #[trigger] out@[k] < hi,
            forall|k: int, m: int|
                0 <= k < m < out@.len() ==> #[trigger] comes_before(keys@, out@[k], out@[m]),
            forall|k: int, m: int|
                0 <= k < out@.len() && i <= m < left@.len() ==> #[trigger] comes_before(
                    keys@,
                    out@[k],
                    left@[m],
                ),
            forall|k: int, m: int|
                0 <= k < out@.len() && j <= m < right@.len() ==> #[trigger] comes_before(
                    keys@,
                    out@[k],
                    right@[m],
                ),
        decreases left@.len() - i + right@.len() - j,
    {
        let take_left: bool = j >= right.len() || (i < left.len() && keys[left[i]] <= keys[right[j]]);
        if take_left {
            assert(forall|m: int|
                i < m < left@.len() ==> #[trigger] comes_before(keys@, left@[i as int], left@[m]));
            assert forall|m: int| j <= m < right@.len() implies #[trigger] comes_before(
                keys@,
                left@[i as int],
                right@[m],
            ) by {
                if j < m {
                    assert(comes_before(keys@, right@[j as int], right@[m]));
                }
            }
            out.push(left[i]);
            i += 1;
        } else {
            assert(forall|m: int|
                j < m < right@.len() ==> #[trigger] comes_before(keys@, right@[j as int], right@[m]));
            assert forall|m: int| i <= m < left@.len() implies #[trigger] comes_before(
                keys@,
                right@[j as int],
                left@[m],
            ) by {
                if i < m {
                    assert(comes_before(keys@, left@[i as int], left@[m]));
                }
            }
            out.push(right[j]);
            j += 1;
        }
    }
    out
}

/// Orders the items `lo` to `hi`.
fn order_range(keys: &Vec<u64>, lo: usize, hi: usize) -> (r: Vec<usize>)
    requires
        lo <= hi <= keys@.len(),
    ensures
        orders(keys@, r@, lo as int, hi as int),
    decreases hi - lo,
{
    let mut out: Vec<usize> = Vec::new();
    if hi - lo == 0 {
        return out;
    }
    if hi - lo == 1 {
        out.push(lo);
        return out;
    }
    let mid: usize = lo + (hi - lo) / 2;
    let left: Vec<usize> = order_range(keys, lo, mid);
    let right: Vec<usize> = order_range(keys, mid, hi);
    merge(keys, left, right, Ghost(lo as int), Ghost(mid as int), Ghost(hi as int))
}

/// The order of some items by their keys, items with equal keys in the order of
/// their positions.
pub fn sorted_order(keys: &Vec<u64>) -> (r: Vec<usize>)
    ensures
        orders(keys@, r@, 0, keys@.len() as int),
{
    order_range(keys, 0, keys.len())
}

/// The items of `s` in the given order.
pub open spec fn reordered<T>(s: Seq<T>, order: Seq<usize>) -> Seq<T> {
    order.map_values(|i: usize| s[i as int])
}

/// Distinct positions, as many as there are items, name every item.
proof fn lemma_all_positions(order: Seq<usize>, n: nat, k: int)
    requires
        order.len() == n,
        order.no_duplicates(),
        forall|i: int| 0 <= i < n ==> #[trigger] order[i] < n,
        0 <= k < n,
    ensures
        exists|i: int| 0 <= i < order.len() && #[trigger] order[i] == k,
{
    let wide = order.map_values(|i: usize| i as int);
    assert(wide.no_duplicates()) by {
        assert forall|i: int, j: int| 0 <= i < wide.len() && 0 <= j < wide.len() && i != j implies wide[i]
            != wide[j] by {
            assert(order[i] != order[j]);
        }
    }
    wide.unique_seq_to_set();
    vstd::set_lib::lemma_int_range(0, n as int);
    let range = vstd::set_lib::set_int_range(0, n as int);
    assert(wide.to_set().subset_of(range));
    vstd::set_lib::lemma_subset_equality(wide.to_set(), range);
    assert(wide.to_set().contains(k));
    let i = choose|i: int| 0 <= i < wide.len() && wide[i] == k;
    assert(order[i] == k);
}

/// Reordering by distinct positions keeps the items and how often each occurs.
pub proof fn reordering_keeps_items<T>(s: Seq<T>, order: Seq<usize>)
    requires
        order.len() == s.len(),
        order.no_duplicates(),
        forall|i: int| 0 <= i < s.len() ==> #[trigger] order[i] < s.len(),
    ensures
        reordered(s, order).to_multiset() == s.to_multiset(),
    decreases s.len(),
{
    broadcast use vstd::seq_lib::group_to_multiset_ensures;

    let n = s.len();
    if n == 0 {
        assert(reordered(s, order) =~= s);
    } else {
        lemma_all_positions(order, n, n - 1);
        let j = choose|j: int| 0 <= j < order.len() && #[trigger] order[j] == n - 1;
        let rest = order.remove(j);
        assert forall|i: int| 0 <= i < rest.len() implies #[trigger] rest[i] < s.drop_last().len() by {
            if i < j {
                assert(rest[i] == order[i]);
            } else {
                assert(rest[i] == order[i + 1]);
            }
        }
        reordering_keeps_items(s.drop_last(), rest);
        let whole = reordered(s, order);
        assert(reordered(s.drop_last(), rest) =~= whole.remove(j));
        assert(s.drop_last() =~= s.remove(n - 1));
        vstd::seq_lib::to_multiset_remove(s, n - 1);
        vstd::seq_lib::to_multiset_remove(whole, j);
        assert(whole[j] == s[n - 1]);
        assert(whole.to_multiset().remove(whole[j]).insert(whole[j]) =~= whole.to_multiset());
        assert(s.to_multiset().remove(s[n - 1]).insert(s[n - 1]) =~= s.to_multiset());
    }
}

/// The order by keys names distinct positions.
pub proof fn orders_is_reordering(keys: Seq<u64>, order: Seq<usize>)
    requires
        orders(keys, order, 0, keys.len() as int),
    ensures
        order.len() == keys.len(),
        order.no_duplicates(),
        forall|i: int| 0 <= i < keys.len() ==> #[trigger] order[i] < keys.len(),
{
    assert forall|i: int, j: int| 0 <= i < order.len() && 0 <= j < order.len() && i != j implies order[i]
        != order[j] by {
        if i < j {
            assert(comes_before(keys, order[i], order[j]));
        } else {
            assert(comes_before(keys, order[j], order[i]));
        }
    }
}

/// An order by keys goes from smaller keys to greater ones; items with equal keys stand in
/// the order in which they came.
pub proof fn order_goes_by_key_then_position(keys: Seq<u64>, order: Seq<usize>, i: int, j: int)
    requires
        orders(keys, order, 0, keys.len() as int),
        0 <= i < j < order.len(),
    ensures
        keys[order[i] as int] <= keys[order[j] as int],
        keys[order[i] as int] == keys[order[j] as int] ==> order[i] < order[j],
{
    assert(comes_before(keys, order[i], order[j]));
}

/// Reordering takes each item from the position that the order names.
pub proof fn reordering_takes_named_items<T>(s: Seq<T>, order: Seq<usize>, i: int)
    requires
        0 <= i < order.len(),
    ensures
        reordered(s, order).len() == order.len(),
        reordered(s, order)[i] == s[order[i] as int],
{
}

} // verus!
