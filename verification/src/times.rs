//! Sets of points in time, and sorted tables of them.

use vstd::prelude::*;

verus! {

/// `t` is in `times`, and nothing in `times` comes before it.
pub open spec fn is_least(times: Set<nat>, t: nat) -> bool {
    &&& times.contains(t)
    &&& forall|o: nat| times.contains(o) ==> t <= o
}

/// The first of `times`, if there is any.
pub open spec fn least(times: Set<nat>) -> Option<nat> {
    if exists|t: nat| is_least(times, t) {
        Some(choose|t: nat| is_least(times, t))
    } else {
        None
    }
}

/// Those of `times` that come after `t`.
pub open spec fn later_than(times: Set<nat>, t: nat) -> Set<nat> {
    Set::new(|o: nat| times.contains(o) && o > t)
}

/// The values that a table holds.
pub open spec fn table_values(table: Seq<u128>) -> Set<nat> {
    Set::new(|t: nat| exists|k: int| 0 <= k < table.len() && table[k] == t)
}

/// The values of a table ascend.
pub open spec fn ascending(table: Seq<u128>) -> bool {
    forall|i: int, j: int| 0 <= i <= j < table.len() ==> table[i] <= table[j]
}

/// There is one first time at most.
pub proof fn lemma_least_is(times: Set<nat>, t: nat)
    requires
        is_least(times, t),
    ensures
        least(times) == Some(t),
{
}

/// Wherever there are times, there is a first one; `least` gives `None` for the empty set only.
pub proof fn lemma_least_exists(times: Set<nat>)
    ensures
        least(times) is None <==> times =~= Set::empty(),
        least(times) matches Some(t) ==> is_least(times, t),
{
    if exists|t: nat| times.contains(t) {
        let t = choose|t: nat| times.contains(t);
        lemma_least_below(times, t);
    } else {
        if exists|t: nat| is_least(times, t) {
            let t = choose|t: nat| is_least(times, t);
            assert(times.contains(t));
        }
    }
}

proof fn lemma_least_below(times: Set<nat>, t: nat)
    requires
        times.contains(t),
    ensures
        exists|l: nat| is_least(times, l),
    decreases t,
{
    if exists|o: nat| times.contains(o) && o < t {
        let o = choose|o: nat| times.contains(o) && o < t;
        lemma_least_below(times, o);
    } else {
        assert(is_least(times, t));
    }
}

/// Calls `<[u128]>::sort_unstable`. Claimed of it: the same values stay, each as often as
/// before, in ascending order.
#[verifier::external_body]
pub(crate) fn sort_unstable(table: &mut Vec<u128>)
    ensures
        final(table)@.to_multiset() == old(table)@.to_multiset(),
        ascending(final(table)@),
{
    table.sort_unstable();
}

/// Tables that hold the same values equally often hold the same set of values, and as many.
pub proof fn lemma_permuted_tables(a: Seq<u128>, b: Seq<u128>)
    requires
        a.to_multiset() == b.to_multiset(),
    ensures
        a.len() == b.len(),
        table_values(a) == table_values(b),
{
    vstd::seq_lib::to_multiset_len(a);
    vstd::seq_lib::to_multiset_len(b);
    lemma_permuted_contains(a, b);
    lemma_permuted_contains(b, a);
    assert(table_values(a) =~= table_values(b));
}

proof fn lemma_permuted_contains(a: Seq<u128>, b: Seq<u128>)
    requires
        a.to_multiset() == b.to_multiset(),
    ensures
        table_values(a).subset_of(table_values(b)),
{
    assert forall|t: nat| table_values(a).contains(t) implies table_values(b).contains(t) by {
        let k = choose|k: int| 0 <= k < a.len() && a[k] == t;
        assert(a.contains(a[k]));
        vstd::seq_lib::to_multiset_contains(a, a[k]);
        vstd::seq_lib::to_multiset_contains(b, a[k]);
        let n = choose|n: int| 0 <= n < b.len() && b[n] == a[k];
        assert(b[n] == t);
    }
}

/// The number of values in an ascending table that do not come after `t`.
fn partition_point(table: &Vec<u128>, t: u128) -> (at: usize)
    requires
        ascending(table@),
    ensures
        at <= table.len(),
        forall|k: int| 0 <= k < at ==> table@[k] <= t,
        forall|k: int| at <= k < table.len() ==> table@[k] > t,
{
    let mut low: usize = 0;
    let mut high: usize = table.len();
    while low < high
        invariant
            ascending(table@),
            low <= high <= table.len(),
            forall|k: int| 0 <= k < low ==> table@[k] <= t,
            forall|k: int| high <= k < table.len() ==> table@[k] > t,
        decreases high - low,
    {
        let mid: usize = low + (high - low) / 2;
        if table[mid] <= t {
            low = mid + 1;
        } else {
            high = mid;
        }
    }
    low
}

/// Looks up the first value after `t` in an ascending table.
pub(crate) fn first_after(table: &Vec<u128>, t: u128) -> (found: Option<u128>)
    requires
        ascending(table@),
    ensures
        found is Some <==> least(later_than(table_values(table@), t as nat)) is Some,
        found matches Some(v) ==> least(later_than(table_values(table@), t as nat)) == Some(
            v as nat,
        ),
        found matches Some(v) ==> exists|k: int| 0 <= k < table.len() && table@[k] == v,
{
    let at: usize = partition_point(table, t);
    let ghost later = later_than(table_values(table@), t as nat);
    if at < table.len() {
        let found: u128 = table[at];
        proof {
            assert(table@[at as int] == found as nat);
            assert(table_values(table@).contains(found as nat));
            assert forall|o: nat| later.contains(o) implies found as nat <= o by {
                let k = choose|k: int| 0 <= k < table.len() && table@[k] == o;
                assert(k >= at);
            }
            lemma_least_is(later, found as nat);
        }
        Some(found)
    } else {
        proof {
            lemma_least_exists(later);
            assert forall|o: nat| !later.contains(o) by {
                if later.contains(o) {
                    let k = choose|k: int| 0 <= k < table.len() && table@[k] == o;
                    assert(table@[k] <= t);
                }
            }
            assert(later =~= Set::empty());
        }
        None
    }
}

} // verus!
