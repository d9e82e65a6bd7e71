//! The ways of choosing some of the first `n` places: how many there are, that
//! none comes twice, and that none is missing.

use itertools::Itertools;
use vstd::arithmetic::power2::{lemma2_to64, lemma_pow2_unfold, pow2};
use vstd::prelude::*;
use vstd::seq_lib::lemma_no_dup_in_concat;

verus! {

/// `places` names places from `lo` up to, not including, `n`, each greater
/// than the one before it.
pub open spec fn is_selection(places: Seq<usize>, lo: nat, n: nat) -> bool {
    &&& forall|i: int| 0 <= i < places.len() ==> lo <= #[trigger] places[i] < n
    &&& forall|i: int, j: int| 0 <= i < j < places.len() ==> places[i] < places[j]
}

/// `place` put before `rest`.
pub open spec fn prepend(place: nat, rest: Seq<usize>) -> Seq<usize> {
    seq![place as usize] + rest
}

/// All the ways of choosing `k` places from `lo` up to `n`, each way in
/// rising order, and the ways in the order of a dictionary: first those that
/// begin with `lo`, then the others.
pub open spec fn k_combinations(lo: nat, n: nat, k: nat) -> Seq<Seq<usize>>
    decreases n - lo,
{
    if k == 0 {
        seq![Seq::<usize>::empty()]
    } else if lo >= n {
        Seq::<Seq<usize>>::empty()
    } else {
        k_combinations(lo + 1, n, (k - 1) as nat).map_values(|rest: Seq<usize>| prepend(lo, rest))
            + k_combinations(lo + 1, n, k)
    }
}

/// Every member of [`k_combinations`] chooses `k` places in rising order.
pub proof fn lemma_combinations_are_selections(lo: nat, n: nat, k: nat, i: int)
    requires
        n <= usize::MAX,
        0 <= i < k_combinations(lo, n, k).len(),
    ensures
        k_combinations(lo, n, k)[i].len() == k,
        is_selection(k_combinations(lo, n, k)[i], lo, n),
    decreases n - lo,
{
    if k > 0 && lo < n {
        let with_lo = k_combinations(lo + 1, n, (k - 1) as nat);
        if i < with_lo.len() {
            lemma_combinations_are_selections(lo + 1, n, (k - 1) as nat, i);
            let rest = with_lo[i];
            let whole = prepend(lo, rest);
            assert(k_combinations(lo, n, k)[i] == whole);
            assert forall|a: int, b: int| 0 <= a < b < whole.len() implies whole[a] < whole[b] by {
                if a > 0 {
                    assert(whole[a] == rest[a - 1] && whole[b] == rest[b - 1]);
                } else {
                    assert(whole[b] == rest[b - 1]);
                }
            }
            assert forall|a: int| 0 <= a < whole.len() implies lo <= #[trigger] whole[a] < n by {
                if a > 0 {
                    assert(whole[a] == rest[a - 1]);
                }
            }
        } else {
            lemma_combinations_are_selections(lo + 1, n, k, i - with_lo.len());
        }
    }
}

/// Every way of choosing `k` places in rising order is a member of
/// [`k_combinations`].
pub proof fn lemma_selections_are_combinations(lo: nat, n: nat, k: nat, places: Seq<usize>)
    requires
        n <= usize::MAX,
        places.len() == k,
        is_selection(places, lo, n),
    ensures
        k_combinations(lo, n, k).contains(places),
    decreases n - lo,
{
    if k == 0 {
        assert(places =~= Seq::<usize>::empty());
        assert(k_combinations(lo, n, k)[0] == places);
    } else if lo >= n {
        assert(lo <= places[0] < n);
    } else {
        let with_lo = k_combinations(lo + 1, n, (k - 1) as nat);
        let without = k_combinations(lo + 1, n, k);
        if places[0] == lo {
            let rest = places.drop_first();
            assert forall|a: int| 0 <= a < rest.len() implies lo + 1 <= #[trigger] rest[a] < n by {
                assert(places[0] < places[a + 1]);
            }
            lemma_selections_are_combinations(lo + 1, n, (k - 1) as nat, rest);
            let i = choose|i: int| 0 <= i < with_lo.len() && with_lo[i] == rest;
            assert(prepend(lo, rest) =~= places);
            assert(k_combinations(lo, n, k)[i] == places);
        } else {
            assert forall|a: int| 0 <= a < places.len() implies lo + 1 <= #[trigger] places[a]
                < n by {
                if a > 0 {
                    assert(places[0] < places[a]);
                }
            }
            lemma_selections_are_combinations(lo + 1, n, k, places);
            let i = choose|i: int| 0 <= i < without.len() && without[i] == places;
            assert(k_combinations(lo, n, k)[with_lo.len() + i] == places);
        }
    }
}

/// No way of choosing comes twice in [`k_combinations`].
pub proof fn lemma_combinations_are_distinct(lo: nat, n: nat, k: nat)
    requires
        n <= usize::MAX,
    ensures
        k_combinations(lo, n, k).no_duplicates(),
    decreases n - lo,
{
    if k > 0 && lo < n {
        let with_lo = k_combinations(lo + 1, n, (k - 1) as nat);
        let without = k_combinations(lo + 1, n, k);
        let first = with_lo.map_values(|rest: Seq<usize>| prepend(lo, rest));
        lemma_combinations_are_distinct(lo + 1, n, (k - 1) as nat);
        lemma_combinations_are_distinct(lo + 1, n, k);
        assert forall|i: int, j: int| 0 <= i < first.len() && 0 <= j < first.len() && i
            != j implies first[i] != first[j] by {
            assert(first[i].drop_first() =~= with_lo[i]);
            assert(first[j].drop_first() =~= with_lo[j]);
        }
        assert forall|i: int, j: int|
            0 <= i < first.len() && 0 <= j < without.len() implies first[i] != without[j] by {
            lemma_combinations_are_selections(lo + 1, n, k, j);
            assert(first[i][0] == lo);
            assert(lo + 1 <= without[j][0]);
        }
        lemma_no_dup_in_concat(first, without);
    }
}

/// `a` comes before `b` in a dictionary: where the two first differ, `a` has
/// the smaller place.
pub open spec fn comes_before(a: Seq<usize>, b: Seq<usize>) -> bool {
    exists|p: int|
        0 <= p < a.len() && p < b.len() && #[trigger] a[p] < b[p] && forall|q: int|
            0 <= q < p ==> a[q] == b[q]
}

/// Of two ways of choosing, at most one comes before the other, and none
/// comes before itself.
pub proof fn lemma_order_is_one_sided(a: Seq<usize>, b: Seq<usize>)
    ensures
        !(comes_before(a, b) && comes_before(b, a)),
{
    if comes_before(a, b) && comes_before(b, a) {
        let p = choose|p: int|
            0 <= p < a.len() && p < b.len() && #[trigger] a[p] < b[p] && forall|q: int|
                0 <= q < p ==> a[q] == b[q];
        let r = choose|r: int|
            0 <= r < b.len() && r < a.len() && #[trigger] b[r] < a[r] && forall|q: int|
                0 <= q < r ==> b[q] == a[q];
        if p < r {
            assert(b[p] == a[p]);
        } else if r < p {
            assert(a[r] == b[r]);
        }
    }
}

/// [`k_combinations`] lists the ways of choosing in the order of a
/// dictionary.
pub proof fn lemma_combinations_are_in_order(lo: nat, n: nat, k: nat, i: int, j: int)
    requires
        n <= usize::MAX,
        0 <= i < j < k_combinations(lo, n, k).len(),
    ensures
        comes_before(k_combinations(lo, n, k)[i], k_combinations(lo, n, k)[j]),
    decreases n - lo,
{
    if k > 0 && lo < n {
        let with_lo = k_combinations(lo + 1, n, (k - 1) as nat);
        let without = k_combinations(lo + 1, n, k);
        let a = k_combinations(lo, n, k)[i];
        let b = k_combinations(lo, n, k)[j];
        if j < with_lo.len() {
            lemma_combinations_are_in_order(lo + 1, n, (k - 1) as nat, i, j);
            let p = choose|p: int|
                0 <= p < with_lo[i].len() && p < with_lo[j].len() && #[trigger] with_lo[i][p]
                    < with_lo[j][p] && forall|q: int| 0 <= q < p ==> with_lo[i][q] == with_lo[j][q];
            assert(a[p + 1] == with_lo[i][p]);
            assert(b[p + 1] == with_lo[j][p]);
            assert forall|q: int| 0 <= q < p + 1 implies a[q] == b[q] by {
                if q > 0 {
                    assert(a[q] == with_lo[i][q - 1]);
                    assert(b[q] == with_lo[j][q - 1]);
                }
            }
            assert(a[p + 1] < b[p + 1]);
        } else if i >= with_lo.len() {
            lemma_combinations_are_in_order(
                lo + 1,
                n,
                k,
                i - with_lo.len(),
                j - with_lo.len(),
            );
        } else {
            lemma_combinations_are_selections(lo + 1, n, k, j - with_lo.len());
            lemma_combinations_are_selections(lo + 1, n, (k - 1) as nat, i);
            assert(a[0] == lo);
            assert(lo + 1 <= b[0]);
            assert(a[0] < b[0]);
        }
    }
}

/// `table` lists every way of choosing `k` places below `n` once, each in
/// rising order, and the ways in the order of a dictionary.
pub open spec fn lists_combinations(table: Seq<Seq<usize>>, n: nat, k: nat) -> bool {
    &&& forall|i: int|
        0 <= i < table.len() ==> (#[trigger] table[i]).len() == k && is_selection(table[i], 0, n)
    &&& forall|i: int, j: int|
        0 <= i < j < table.len() ==> comes_before(#[trigger] table[i], #[trigger] table[j])
    &&& forall|places: Seq<usize>|
        places.len() == k && #[trigger] is_selection(places, 0, n) ==> table.contains(places)
}

/// Two lists in the order of a dictionary that hold the same ways of
/// choosing are the same list.
proof fn lemma_ordered_lists_agree(a: Seq<Seq<usize>>, b: Seq<Seq<usize>>)
    requires
        forall|i: int, j: int|
            0 <= i < j < a.len() ==> comes_before(#[trigger] a[i], #[trigger] a[j]),
        forall|i: int, j: int|
            0 <= i < j < b.len() ==> comes_before(#[trigger] b[i], #[trigger] b[j]),
        forall|way: Seq<usize>| a.contains(way) <==> b.contains(way),
    ensures
        a == b,
    decreases a.len(),
{
    if a.len() == 0 {
        if b.len() > 0 {
            assert(b.contains(b[0]));
        }
        assert(a =~= b);
    } else {
        let top = a.last();
        assert(a.contains(top));
        assert(b.len() > 0);
        assert(b.contains(b.last()));
        let at = choose|at: int| 0 <= at < b.len() && b[at] == top;
        let back = choose|back: int| 0 <= back < a.len() && a[back] == b.last();
        lemma_order_is_one_sided(top, b.last());
        assert(b.last() == top);
        let front = a.drop_last();
        let other = b.drop_last();
        assert forall|way: Seq<usize>| front.contains(way) <==> other.contains(way) by {
            lemma_order_is_one_sided(way, way);
            if front.contains(way) {
                let i = choose|i: int| 0 <= i < front.len() && front[i] == way;
                assert(a[i] == way);
                assert(a.contains(way));
                let t = choose|t: int| 0 <= t < b.len() && b[t] == way;
                assert(comes_before(a[i], a[a.len() - 1]));
                assert(other[t] == way);
            }
            if other.contains(way) {
                let t = choose|t: int| 0 <= t < other.len() && other[t] == way;
                assert(b[t] == way);
                assert(b.contains(way));
                let i = choose|i: int| 0 <= i < a.len() && a[i] == way;
                assert(comes_before(b[t], b[b.len() - 1]));
                assert(front[i] == way);
            }
        }
        assert forall|i: int, j: int| 0 <= i < j < front.len() implies comes_before(
            #[trigger] front[i],
            #[trigger] front[j],
        ) by {
            assert(comes_before(a[i], a[j]));
        }
        assert forall|i: int, j: int| 0 <= i < j < other.len() implies comes_before(
            #[trigger] other[i],
            #[trigger] other[j],
        ) by {
            assert(comes_before(b[i], b[j]));
        }
        lemma_ordered_lists_agree(front, other);
        assert(a =~= front.push(top));
        assert(b =~= other.push(top));
    }
}

/// There is one list of the ways of choosing `k` places below `n` in the
/// order of a dictionary, and it is [`k_combinations`].
pub proof fn lemma_combination_list_is_unique(table: Seq<Seq<usize>>, n: nat, k: nat)
    requires
        n <= usize::MAX,
    ensures
        lists_combinations(k_combinations(0, n, k), n, k),
        lists_combinations(table, n, k) ==> table == k_combinations(0, n, k),
{
    let all = k_combinations(0, n, k);
    assert forall|i: int| 0 <= i < all.len() implies (#[trigger] all[i]).len() == k
        && is_selection(all[i], 0, n) by {
        lemma_combinations_are_selections(0, n, k, i);
    }
    assert forall|i: int, j: int| 0 <= i < j < all.len() implies comes_before(
        #[trigger] all[i],
        #[trigger] all[j],
    ) by {
        lemma_combinations_are_in_order(0, n, k, i, j);
    }
    assert forall|places: Seq<usize>|
        places.len() == k && #[trigger] is_selection(places, 0, n) implies all.contains(places) by {
        lemma_selections_are_combinations(0, n, k, places);
    }
    if lists_combinations(table, n, k) {
        assert forall|way: Seq<usize>| table.contains(way) <==> all.contains(way) by {
            if table.contains(way) {
                let i = choose|i: int| 0 <= i < table.len() && table[i] == way;
                assert(is_selection(table[i], 0, n));
            }
            if all.contains(way) {
                let i = choose|i: int| 0 <= i < all.len() && all[i] == way;
                assert(is_selection(all[i], 0, n));
            }
        }
        lemma_ordered_lists_agree(table, all);
    }
}

/// The number of ways of choosing at most `k` places from `lo` up to `n`.
pub open spec fn count_up_to(lo: nat, n: nat, k: nat) -> nat
    decreases k,
{
    if k == 0 {
        k_combinations(lo, n, 0).len()
    } else {
        count_up_to(lo, n, (k - 1) as nat) + k_combinations(lo, n, k).len()
    }
}

/// Choosing at most `k` places from `lo` on either takes `lo` and at most
/// `k - 1` of the places after it, or leaves `lo` out.
proof fn lemma_count_splits(lo: nat, n: nat, k: nat)
    requires
        lo < n,
    ensures
        count_up_to(lo, n, k) == count_up_to(lo + 1, n, k) + if k == 0 {
            0
        } else {
            count_up_to(lo + 1, n, (k - 1) as nat)
        },
    decreases k,
{
    if k > 0 {
        lemma_count_splits(lo, n, (k - 1) as nat);
    }
}

/// There is no way of choosing more places than there are.
proof fn lemma_none_too_long(lo: nat, n: nat, k: nat)
    requires
        lo <= n,
        k > n - lo,
    ensures
        k_combinations(lo, n, k).len() == 0,
    decreases n - lo,
{
    if lo < n {
        lemma_none_too_long(lo + 1, n, (k - 1) as nat);
        lemma_none_too_long(lo + 1, n, k);
    }
}

/// There are two to the power of `n - lo` ways of choosing places from `lo`
/// up to `n`, the empty way counted.
pub proof fn lemma_count_is_power_of_two(lo: nat, n: nat, k: nat)
    requires
        lo <= n,
        k >= n - lo,
    ensures
        count_up_to(lo, n, k) == pow2((n - lo) as nat),
    decreases n - lo, k,
{
    if lo == n {
        if k > 0 {
            lemma_count_is_power_of_two(lo, n, (k - 1) as nat);
        }
        lemma2_to64();
    } else {
        lemma_count_splits(lo, n, k);
        lemma_pow2_unfold((n - lo) as nat);
        lemma_count_is_power_of_two(lo + 1, n, k);
        lemma_count_is_power_of_two(lo + 1, n, (k - 1) as nat);
    }
}

/// The items at the given places, in the order of the places.
pub open spec fn select<T>(items: Seq<T>, places: Seq<usize>) -> Seq<T> {
    places.map_values(|place: usize| items[place as int])
}

/// The contents of each row.
pub open spec fn rows<T>(table: Seq<Vec<T>>) -> Seq<Seq<T>> {
    table.map_values(|row: Vec<T>| row@)
}

/// The subsets of `k` items, each in the order of the items.
pub open spec fn subsets_of_size<T>(items: Seq<T>, k: nat) -> Seq<Seq<T>> {
    k_combinations(0, items.len(), k).map_values(|places: Seq<usize>| select(items, places))
}

/// The subsets of one item, then those of two, and so on up to those of `k`.
pub open spec fn subsets_up_to<T>(items: Seq<T>, k: nat) -> Seq<Seq<T>>
    decreases k,
{
    if k == 0 {
        Seq::empty()
    } else {
        subsets_up_to(items, (k - 1) as nat) + subsets_of_size(items, k)
    }
}

/// Every subset of the items but the empty one, the smaller before the
/// larger.
pub open spec fn nonempty_subsets<T>(items: Seq<T>) -> Seq<Seq<T>> {
    subsets_up_to(items, items.len())
}

/// `subset` holds some of the items, at least one, in the order of the items.
pub open spec fn is_nonempty_choice<T>(subset: Seq<T>, items: Seq<T>) -> bool {
    exists|places: Seq<usize>|
        is_selection(places, 0, items.len()) && places.len() > 0 && #[trigger] select(items, places)
            == subset
}

/// The subsets up to size `k` are one fewer than the ways of choosing at
/// most `k` places: the empty way is left out.
proof fn lemma_count_up_to<T>(items: Seq<T>, k: nat)
    ensures
        subsets_up_to(items, k).len() + 1 == count_up_to(0, items.len(), k),
    decreases k,
{
    if k > 0 {
        lemma_count_up_to(items, (k - 1) as nat);
    }
}

/// A list of `n` items has two to the power of `n`, less one, subsets that
/// are not empty.
pub proof fn lemma_subsets_count<T>(items: Seq<T>)
    ensures
        nonempty_subsets(items).len() == pow2(items.len()) - 1,
{
    lemma_count_up_to(items, items.len());
    lemma_count_is_power_of_two(0, items.len(), items.len());
}

/// From any place on, the places that follow leave room below `n`.
proof fn lemma_selection_is_short_from(places: Seq<usize>, n: nat, i: int)
    requires
        is_selection(places, 0, n),
        0 <= i < places.len(),
    ensures
        places[i] + (places.len() - 1 - i) < n,
    decreases places.len() - i,
{
    if i < places.len() - 1 {
        lemma_selection_is_short_from(places, n, i + 1);
    }
}

/// Every member of [`subsets_up_to`] holds some of the items in their order,
/// at least one and at most `k`.
proof fn lemma_up_to_are_choices<T>(items: Seq<T>, k: nat, i: int)
    requires
        items.len() <= usize::MAX,
        0 <= i < subsets_up_to(items, k).len(),
    ensures
        is_nonempty_choice(subsets_up_to(items, k)[i], items),
        1 <= subsets_up_to(items, k)[i].len() <= k,
    decreases k,
{
    let front = subsets_up_to(items, (k - 1) as nat);
    if i < front.len() {
        lemma_up_to_are_choices(items, (k - 1) as nat, i);
    } else {
        let places = k_combinations(0, items.len(), k)[i - front.len()];
        lemma_combinations_are_selections(0, items.len(), k, i - front.len());
        assert(select(items, places) == subsets_up_to(items, k)[i]);
    }
}

/// Every subset listed holds some of the items in their order, and at least
/// one: the empty subset is not listed.
pub proof fn lemma_subsets_are_choices<T>(items: Seq<T>, i: int)
    requires
        items.len() <= usize::MAX,
        0 <= i < nonempty_subsets(items).len(),
    ensures
        is_nonempty_choice(nonempty_subsets(items)[i], items),
        nonempty_subsets(items)[i].len() >= 1,
{
    lemma_up_to_are_choices(items, items.len(), i);
}

/// The subsets of size `j` are among those up to size `k`, if `j` is.
proof fn lemma_up_to_holds_each_size<T>(items: Seq<T>, k: nat, j: nat, subset: Seq<T>)
    requires
        1 <= j <= k,
        subsets_of_size(items, j).contains(subset),
    ensures
        subsets_up_to(items, k).contains(subset),
    decreases k,
{
    let front = subsets_up_to(items, (k - 1) as nat);
    if j < k {
        lemma_up_to_holds_each_size(items, (k - 1) as nat, j, subset);
        let i = choose|i: int| 0 <= i < front.len() && front[i] == subset;
        assert(subsets_up_to(items, k)[i] == subset);
    } else {
        let i = choose|i: int|
            0 <= i < subsets_of_size(items, k).len() && subsets_of_size(items, k)[i] == subset;
        assert(subsets_up_to(items, k)[front.len() + i] == subset);
    }
}

/// Nothing is missing: whatever places are chosen, at least one and in rising
/// order, the items at those places are one of the subsets listed.
pub proof fn lemma_subsets_are_exhaustive<T>(items: Seq<T>, places: Seq<usize>)
    requires
        items.len() <= usize::MAX,
        is_selection(places, 0, items.len()),
        places.len() > 0,
    ensures
        nonempty_subsets(items).contains(select(items, places)),
{
    let k = places.len();
    lemma_selection_is_short_from(places, items.len(), 0);
    lemma_selections_are_combinations(0, items.len(), k, places);
    let all = k_combinations(0, items.len(), k);
    let i = choose|i: int| 0 <= i < all.len() && all[i] == places;
    assert(subsets_of_size(items, k)[i] == select(items, places));
    lemma_up_to_holds_each_size(items, items.len(), k, select(items, places));
}

/// Where no item comes twice, no subset of one size comes twice.
proof fn lemma_one_size_is_distinct<T>(items: Seq<T>, k: nat)
    requires
        items.len() <= usize::MAX,
        items.no_duplicates(),
    ensures
        subsets_of_size(items, k).no_duplicates(),
{
    let all = k_combinations(0, items.len(), k);
    lemma_combinations_are_distinct(0, items.len(), k);
    assert forall|i: int, j: int| 0 <= i < all.len() && 0 <= j < all.len() && i != j implies select(
        items,
        all[i],
    ) != select(items, all[j]) by {
        lemma_combinations_are_selections(0, items.len(), k, i);
        lemma_combinations_are_selections(0, items.len(), k, j);
        if select(items, all[i]) == select(items, all[j]) {
            assert forall|p: int| 0 <= p < k implies all[i][p] == all[j][p] by {
                assert(select(items, all[i])[p] == items[all[i][p] as int]);
                assert(select(items, all[j])[p] == items[all[j][p] as int]);
            }
            assert(all[i] =~= all[j]);
        }
    }
}

/// Where no item comes twice, no subset up to size `k` comes twice.
proof fn lemma_up_to_is_distinct<T>(items: Seq<T>, k: nat)
    requires
        items.len() <= usize::MAX,
        items.no_duplicates(),
    ensures
        subsets_up_to(items, k).no_duplicates(),
    decreases k,
{
    if k > 0 {
        let front = subsets_up_to(items, (k - 1) as nat);
        let last = subsets_of_size(items, k);
        lemma_up_to_is_distinct(items, (k - 1) as nat);
        lemma_one_size_is_distinct(items, k);
        assert forall|i: int, j: int| 0 <= i < front.len() && 0 <= j < last.len() implies front[i]
            != last[j] by {
            lemma_up_to_are_choices(items, (k - 1) as nat, i);
            lemma_combinations_are_selections(0, items.len(), k, j);
        }
        lemma_no_dup_in_concat(front, last);
    }
}

/// Where no item comes twice, no subset is listed twice.
pub proof fn lemma_subsets_are_distinct<T>(items: Seq<T>)
    requires
        items.len() <= usize::MAX,
        items.no_duplicates(),
    ensures
        nonempty_subsets(items).no_duplicates(),
{
    lemma_up_to_is_distinct(items, items.len());
}

/// Two lists of places in rising order that hold the same places are the
/// same list.
proof fn lemma_rising_places_agree(a: Seq<usize>, b: Seq<usize>)
    requires
        forall|i: int, j: int| 0 <= i < j < a.len() ==> a[i] < a[j],
        forall|i: int, j: int| 0 <= i < j < b.len() ==> b[i] < b[j],
        forall|place: usize| a.contains(place) <==> b.contains(place),
    ensures
        a == b,
    decreases a.len(),
{
    if a.len() == 0 {
        if b.len() > 0 {
            assert(b.contains(b[0]));
        }
        assert(a =~= b);
    } else {
        let top = a.last();
        assert(a.contains(top));
        assert(b.len() > 0);
        assert(b.contains(b.last()));
        let at = choose|at: int| 0 <= at < b.len() && b[at] == top;
        let back = choose|back: int| 0 <= back < a.len() && a[back] == b.last();
        assert(b.last() == top);
        let front = a.drop_last();
        let other = b.drop_last();
        assert forall|place: usize| front.contains(place) <==> other.contains(place) by {
            if front.contains(place) {
                let i = choose|i: int| 0 <= i < front.len() && front[i] == place;
                assert(a[i] == place);
                assert(a.contains(place));
                let t = choose|t: int| 0 <= t < b.len() && b[t] == place;
                assert(a[i] < a[a.len() - 1]);
                assert(other[t] == place);
            }
            if other.contains(place) {
                let t = choose|t: int| 0 <= t < other.len() && other[t] == place;
                assert(b[t] == place);
                assert(b.contains(place));
                let i = choose|i: int| 0 <= i < a.len() && a[i] == place;
                assert(b[t] < b[b.len() - 1]);
                assert(front[i] == place);
            }
        }
        lemma_rising_places_agree(front, other);
        assert(a =~= front.push(top));
        assert(b =~= other.push(top));
    }
}

/// Where no item comes twice, places chosen in rising order are known from
/// the set of the items at them.
proof fn lemma_choice_is_known_by_its_set<T>(items: Seq<T>, a: Seq<usize>, b: Seq<usize>)
    requires
        items.no_duplicates(),
        is_selection(a, 0, items.len()),
        is_selection(b, 0, items.len()),
        select(items, a).to_set() == select(items, b).to_set(),
    ensures
        a == b,
{
    assert forall|place: usize| a.contains(place) <==> b.contains(place) by {
        if a.contains(place) {
            let i = choose|i: int| 0 <= i < a.len() && a[i] == place;
            assert(select(items, a)[i] == items[place as int]);
            assert(select(items, a).to_set().contains(items[place as int]));
            assert(select(items, b).contains(items[place as int]));
            let t = choose|t: int|
                0 <= t < select(items, b).len() && select(items, b)[t] == items[place as int];
            assert(items[b[t] as int] == items[place as int]);
            assert(b[t] == place);
        }
        if b.contains(place) {
            let i = choose|i: int| 0 <= i < b.len() && b[i] == place;
            assert(select(items, b)[i] == items[place as int]);
            assert(select(items, b).to_set().contains(items[place as int]));
            assert(select(items, a).contains(items[place as int]));
            let t = choose|t: int|
                0 <= t < select(items, a).len() && select(items, a)[t] == items[place as int];
            assert(items[a[t] as int] == items[place as int]);
            assert(a[t] == place);
        }
    }
    lemma_rising_places_agree(a, b);
}

/// Where no item comes twice, no two of the subsets listed hold the same
/// items, in whatever order they are looked at.
pub proof fn lemma_subsets_differ_as_sets<T>(items: Seq<T>, i: int, j: int)
    requires
        items.len() <= usize::MAX,
        items.no_duplicates(),
        0 <= i < nonempty_subsets(items).len(),
        0 <= j < nonempty_subsets(items).len(),
        i != j,
    ensures
        nonempty_subsets(items)[i].to_set() != nonempty_subsets(items)[j].to_set(),
{
    let all = nonempty_subsets(items);
    lemma_subsets_are_distinct(items);
    lemma_subsets_are_choices(items, i);
    lemma_subsets_are_choices(items, j);
    let a = choose|a: Seq<usize>|
        is_selection(a, 0, items.len()) && a.len() > 0 && #[trigger] select(items, a) == all[i];
    let b = choose|b: Seq<usize>|
        is_selection(b, 0, items.len()) && b.len() > 0 && #[trigger] select(items, b) == all[j];
    if all[i].to_set() == all[j].to_set() {
        lemma_choice_is_known_by_its_set(items, a, b);
    }
}

/// Calls `Itertools::combinations` of `itertools` on the numbers below `n` and
/// collects what it yields. The crate yields every way of choosing `k` of
/// them once, each way in rising order; it begins with the `k` smallest
/// numbers and steps from each way to the next in the order of a dictionary.
#[verifier::external_body]
fn index_combinations(n: usize, k: usize) -> (ways: Vec<Vec<usize>>)
    requires
        n < usize::BITS,
    ensures
        lists_combinations(rows(ways@), n as nat, k as nat),
{
    (0..n).combinations(k).collect()
}

/// The ways of choosing `k` of the numbers below `n`.
pub fn combinations(n: usize, k: usize) -> (ways: Vec<Vec<usize>>)
    requires
        n < usize::BITS,
    ensures
        rows(ways@) == k_combinations(0, n as nat, k as nat),
{
    let ways = index_combinations(n, k);
    proof {
        lemma_combination_list_is_unique(rows(ways@), n as nat, k as nat);
    }
    ways
}

/// Lists every subset of the items but the empty one: first the subsets of
/// one item, then those of two, and so on; the subsets of one size in the
/// order in which [`k_combinations`] chooses their places.
pub fn list_nonempty_subsets<T: Copy>(items: &Vec<T>) -> (subsets: Vec<Vec<T>>)
    requires
        items.len() < usize::BITS,
    ensures
        rows(subsets@) == nonempty_subsets(items@),
{
    let n = items.len();
    let mut subsets: Vec<Vec<T>> = Vec::new();
    let mut size: usize = 1;
    assert(rows(subsets@) =~= subsets_up_to(items@, 0));
    while size <= n
        invariant
            n == items.len(),
            n < usize::BITS,
            1 <= size <= n + 1,
            rows(subsets@) == subsets_up_to(items@, (size - 1) as nat),
        decreases n + 1 - size,
    {
        let ways = combinations(n, size);
        let ghost before = rows(subsets@);
        let ghost all = k_combinations(0, n as nat, size as nat);
        let mut w: usize = 0;
        assert(rows(subsets@) =~= before + subsets_of_size(items@, size as nat).take(0));
        while w < ways.len()
            invariant
                n == items.len(),
                w <= ways.len(),
                rows(ways@) == all,
                all == k_combinations(0, n as nat, size as nat),
                rows(subsets@) == before + subsets_of_size(items@, size as nat).take(w as int),
            decreases ways.len() - w,
        {
            let way = &ways[w];
            assert(way@ == all[w as int]);
            proof {
                lemma_combinations_are_selections(0, n as nat, size as nat, w as int);
            }
            let mut chosen: Vec<T> = Vec::new();
            let mut p: usize = 0;
            while p < way.len()
                invariant
                    n == items.len(),
                    p <= way.len(),
                    is_selection(way@, 0, n as nat),
                    chosen@ == select(items@, way@.take(p as int)),
                decreases way.len() - p,
            {
                chosen.push(items[way[p]]);
                p += 1;
                assert(chosen@ =~= select(items@, way@.take(p as int)));
            }
            assert(way@.take(way.len() as int) =~= way@);
            let ghost listed = rows(subsets@);
            let ghost of_size = subsets_of_size(items@, size as nat);
            assert(chosen@ == of_size[w as int]);
            subsets.push(chosen);
            assert(rows(subsets@) =~= listed.push(chosen@));
            assert(of_size.take(w + 1) =~= of_size.take(w as int).push(of_size[w as int]));
            w += 1;
            assert(rows(subsets@) =~= before + of_size.take(w as int));
        }
        assert(subsets_of_size(items@, size as nat).take(w as int) =~= subsets_of_size(
            items@,
            size as nat,
        ));
        size += 1;
    }
    subsets
}

} // verus!
