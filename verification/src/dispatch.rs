//! Callable-handle dispatch: a binary calculator and an in-place sorter, each
//! parametrized by a callable handle whose behaviour enters the contracts
//! through `call_requires` / `call_ensures`.

use core::cmp::Ordering;
use vstd::prelude::*;
use vstd::relations::{sorted_by, transitive};

verus! {

/// Adds two machine integers; the caller rules out overflow.
pub fn sum(x: i32, y: i32) -> (r: i32)
    requires
        i32::MIN <= x + y <= i32::MAX,
    ensures
        r == x + y,
{
    x + y
}

/// Subtracts the second machine integer from the first; the caller rules out
/// overflow.
pub fn sub(x: i32, y: i32) -> (r: i32)
    requires
        i32::MIN <= x - y <= i32::MAX,
    ensures
        r == x - y,
{
    x - y
}

/// Applies the supplied binary operation to the two arguments, so one generic
/// entry point serves every registered operation.
pub fn calculator<F: Fn(i32, i32) -> i32>(x: i32, y: i32, op: F) -> (r: i32)
    requires
        call_requires(op, (x, y)),
    ensures
        call_ensures(op, (x, y), r),
{
    op(x, y)
}

/// Compares two integers by their natural order.
pub fn ascending(a: &i32, b: &i32) -> (r: Ordering)
    ensures
        r == Ordering::Less <==> *a < *b,
        r == Ordering::Equal <==> *a == *b,
        r == Ordering::Greater <==> *a > *b,
{
    if *a < *b {
        Ordering::Less
    } else if *a == *b {
        Ordering::Equal
    } else {
        Ordering::Greater
    }
}

/// Compares two integers by the reverse of their natural order.
pub fn descending(a: &i32, b: &i32) -> (r: Ordering)
    ensures
        r == Ordering::Less <==> *a > *b,
        r == Ordering::Equal <==> *a == *b,
        r == Ordering::Greater <==> *a < *b,
{
    if *a > *b {
        Ordering::Less
    } else if *a == *b {
        Ordering::Equal
    } else {
        Ordering::Greater
    }
}

/// The comparison handle never answers against `leq`: whenever it can return
/// a non-`Greater` outcome the left argument is `leq` the right one, and
/// whenever it can return `Greater` the right argument is `leq` the left one.
pub open spec fn respects<F: Fn(&i32, &i32) -> Ordering>(
    compare: F,
    leq: spec_fn(i32, i32) -> bool,
) -> bool {
    forall|x: i32, y: i32, o: Ordering|
        #[trigger] call_ensures(compare, (&x, &y), o) ==> if o == Ordering::Greater {
            leq(y, x)
        } else {
            leq(x, y)
        }
}

/// The first `n` elements of `s` are pairwise ordered by `leq`.
pub open spec fn ordered_to(s: Seq<i32>, n: int, leq: spec_fn(i32, i32) -> bool) -> bool {
    forall|a: int, b: int| 0 <= a < b < n ==> #[trigger] leq(s[a], s[b])
}

/// The first `n` elements of `s` all sit at or below `x` under `leq`.
pub open spec fn below_up_to(s: Seq<i32>, n: int, x: i32, leq: spec_fn(i32, i32) -> bool) -> bool {
    forall|k: int| 0 <= k < n ==> #[trigger] leq(s[k], x)
}

/// Reorders the sequence in place by insertion, consulting the supplied
/// comparison handle. The result holds the same elements, and is sorted by
/// every transitive order that the handle respects; for a handle that decides
/// a single total order this pins the output completely.
pub fn sorter<F: Fn(&i32, &i32) -> Ordering>(sequence: &mut Vec<i32>, compare: F)
    requires
        forall|x: i32, y: i32| #[trigger] call_requires(compare, (&x, &y)),
    ensures
        final(sequence)@.to_multiset() == old(sequence)@.to_multiset(),
        final(sequence)@.len() == old(sequence)@.len(),
        forall|leq: spec_fn(i32, i32) -> bool|
            #![trigger sorted_by(final(sequence)@, leq)]
            #![trigger respects(compare, leq)]
            respects(compare, leq) && transitive(leq) ==> sorted_by(final(sequence)@, leq),
{
    let ghost orig = sequence@;
    if sequence.len() < 2 {
        return;
    }
    let mut i: usize = 1;
    while i < sequence.len()
        invariant
            1 <= i <= sequence@.len(),
            sequence@.len() == orig.len(),
            sequence@.to_multiset() == orig.to_multiset(),
            forall|x: i32, y: i32| #[trigger] call_requires(compare, (&x, &y)),
            forall|leq: spec_fn(i32, i32) -> bool|
                #![trigger respects(compare, leq)]
                respects(compare, leq) && transitive(leq) ==> ordered_to(
                    sequence@,
                    i as int,
                    leq,
                ),
        decreases sequence@.len() - i,
    {
        let x = sequence[i];
        let mut j: usize = 0;
        let mut scanning = true;
        while scanning && j < i
            invariant
                0 <= j <= i < sequence@.len(),
                x == sequence@[i as int],
                forall|x0: i32, y0: i32| #[trigger] call_requires(compare, (&x0, &y0)),
                forall|leq: spec_fn(i32, i32) -> bool|
                    #![trigger respects(compare, leq)]
                    respects(compare, leq) ==> below_up_to(sequence@, j as int, x, leq),
                !scanning ==> j < i && (forall|leq: spec_fn(i32, i32) -> bool|
                    #![trigger respects(compare, leq)]
                    respects(compare, leq) ==> leq(x, sequence@[j as int])),
            decreases i - j + (if scanning { 1int } else { 0int }),
        {
            let a = sequence[j];
            let o = compare(&a, &x);
            if matches!(o, Ordering::Greater) {
                scanning = false;
            } else {
                j += 1;
            }
        }
        let ghost prev = sequence@;
        let _removed = sequence.remove(i);
        sequence.insert(j, x);
        proof {
            broadcast use vstd::seq_lib::group_to_multiset_ensures;
            broadcast use vstd::seq_lib::to_multiset_insert;
            broadcast use vstd::multiset::group_multiset_axioms;

            prev.remove_ensures(i as int);
            let mid = prev.remove(i as int);
            mid.insert_ensures(j as int, x);
            assert(prev[i as int] == x);
            assert(prev.contains(x));
            assert(prev.to_multiset().count(x) > 0);
            assert(sequence@.to_multiset() =~= prev.to_multiset());
            assert forall|leq: spec_fn(i32, i32) -> bool|
                respects(compare, leq) && transitive(leq) implies ordered_to(
                sequence@,
                i as int + 1,
                leq,
            ) by {
                assert(ordered_to(prev, i as int, leq));
                assert(below_up_to(prev, j as int, x, leq));
                assert forall|a: int, b: int| 0 <= a < b < i as int + 1 implies #[trigger] leq(
                    sequence@[a],
                    sequence@[b],
                ) by {
                    let jj = j as int;
                    if b < jj {
                        assert(sequence@[a] == prev[a] && sequence@[b] == prev[b]);
                    } else if b == jj {
                        assert(sequence@[a] == prev[a] && sequence@[b] == x);
                    } else {
                        assert(sequence@[b] == prev[b - 1]);
                        if a < jj {
                            assert(sequence@[a] == prev[a]);
                        } else if a == jj {
                            assert(sequence@[a] == x);
                            assert(leq(x, prev[jj]));
                            if b - 1 > jj {
                                assert(leq(prev[jj], prev[b - 1]));
                            }
                        } else {
                            assert(sequence@[a] == prev[a - 1]);
                        }
                    }
                }
            }
        }
        i += 1;
    }
    proof {
        assert forall|leq: spec_fn(i32, i32) -> bool|
            respects(compare, leq) && transitive(leq) implies sorted_by(sequence@, leq) by {
            assert(ordered_to(sequence@, sequence@.len() as int, leq));
        }
    }
}

/// The upward order on machine integers, the one the ascending handle decides.
pub open spec fn upward() -> spec_fn(i32, i32) -> bool {
    |x: i32, y: i32| x <= y
}

/// The downward order on machine integers, the one the descending handle
/// decides.
pub open spec fn downward() -> spec_fn(i32, i32) -> bool {
    |x: i32, y: i32| x >= y
}

/// Every handle to the registered addition computes the same value on
/// exchanged arguments: addition is commutative, so invoking on (a, b) and on
/// (b, a) must agree.
pub proof fn lemma_sum_argument_order_irrelevant(a: i32, b: i32, r1: i32, r2: i32)
    requires
        i32::MIN <= a + b <= i32::MAX,
        call_ensures(sum, (a, b), r1),
        call_ensures(sum, (b, a), r2),
    ensures
        r1 == r2,
{
}

/// Every handle to the registered subtraction flips the sign on exchanged
/// arguments: results on (a, b) and on (b, a) differ exactly by sign.
pub proof fn lemma_sub_argument_order_flips_sign(a: i32, b: i32, r1: i32, r2: i32)
    requires
        i32::MIN <= a - b <= i32::MAX,
        i32::MIN <= b - a <= i32::MAX,
        call_ensures(sub, (a, b), r1),
        call_ensures(sub, (b, a), r2),
    ensures
        r1 + r2 == 0,
{
}

/// Two distinct registered operations whose results coincide at (0, 0) make
/// the calculator agree there: both addition and subtraction return 0.
pub proof fn lemma_calculator_zero_agreement(r1: i32, r2: i32)
    requires
        call_ensures(sum, (0i32, 0i32), r1),
        call_ensures(sub, (0i32, 0i32), r2),
    ensures
        r1 == 0,
        r2 == 0,
        r1 == r2,
{
}

/// The ascending handle respects the upward order, which is a total order.
pub proof fn lemma_ascending_decides_upward()
    ensures
        respects(ascending, upward()),
        vstd::relations::total_ordering(upward()),
{
}

/// The descending handle respects the downward order, which is a total order.
pub proof fn lemma_descending_decides_downward()
    ensures
        respects(descending, downward()),
        vstd::relations::total_ordering(downward()),
{
}

/// Sorting is canonical: two upward-sorted sequences that hold the same
/// elements are equal. Reordering upward therefore recovers the same sequence
/// from any permutation of the input, however it was reordered in between.
pub proof fn lemma_sorted_canonical(s1: Seq<i32>, s2: Seq<i32>)
    requires
        s1.to_multiset() == s2.to_multiset(),
        sorted_by(s1, upward()),
        sorted_by(s2, upward()),
    ensures
        s1 == s2,
{
    vstd::seq_lib::lemma_sorted_unique(s1, s2, upward());
}

/// The two opposite orders are exact inverses: on one multiset, the
/// downward-sorted sequence is the reverse of the upward-sorted one.
pub proof fn lemma_opposite_orders_reverse(up: Seq<i32>, down: Seq<i32>)
    requires
        up.to_multiset() == down.to_multiset(),
        sorted_by(up, upward()),
        sorted_by(down, downward()),
    ensures
        down == up.reverse(),
{
    up.lemma_reverse_to_multiset();
    assert forall|i: int, j: int| 0 <= i < j < up.reverse().len() implies #[trigger] (downward())(
        up.reverse()[i],
        up.reverse()[j],
    ) by {
        let n = up.len() as int;
        assert(up.reverse()[i] == up[n - 1 - i]);
        assert(up.reverse()[j] == up[n - 1 - j]);
        assert((upward())(up[n - 1 - j], up[n - 1 - i]));
    }
    vstd::seq_lib::lemma_sorted_unique(down, up.reverse(), downward());
}

} // verus!
