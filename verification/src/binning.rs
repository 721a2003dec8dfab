//! Sorting a revenue into one of the classes that a list of fences bounds.
//!
//! Revenues and fences are doubles, carried as their IEEE-754 bit
//! patterns; their order is read off the bits.
use vstd::prelude::*;

verus! {

/// The bits of a double without its sign bit.
pub open spec fn unsigned_bits(bits: u64) -> u64 {
    if bits >= 0x8000_0000_0000_0000 {
        (bits - 0x8000_0000_0000_0000) as u64
    } else {
        bits
    }
}

/// Whether the bits are those of a NaN.
pub open spec fn is_nan(bits: u64) -> bool {
    unsigned_bits(bits) > 0x7ff0_0000_0000_0000
}

/// A number that orders the doubles that are no NaN as their values do:
/// the unsigned bits, negated where the sign bit is set. Both zeros have
/// the number 0.
pub open spec fn rank(bits: u64) -> int {
    if bits >= 0x8000_0000_0000_0000 {
        -(unsigned_bits(bits) as int)
    } else {
        unsigned_bits(bits) as int
    }
}

/// Whether the double `a` is less than the double `b`. A NaN is not less
/// than anything, and nothing is less than a NaN.
pub open spec fn less(a: u64, b: u64) -> bool {
    !is_nan(a) && !is_nan(b) && rank(a) < rank(b)
}

/// How many of `fences` the revenue `money` is not less than.
pub open spec fn fences_reached(money: u64, fences: Seq<u64>) -> nat
    decreases fences.len(),
{
    if fences.len() == 0 {
        0
    } else if less(money, fences.last()) {
        fences_reached(money, fences.drop_last())
    } else {
        fences_reached(money, fences.drop_last()) + 1
    }
}

/// Whether any of `fences` is a NaN.
pub open spec fn any_nan(fences: Seq<u64>) -> bool {
    exists|i: int| 0 <= i < fences.len() && is_nan(#[trigger] fences[i])
}

/// The class of `money` among the classes that `fences` bounds: the
/// number of fences that `money` has reached, which is the position of the
/// first fence above `money` once the fences are in ascending order.
/// Without fences, or where `money` or a fence is a NaN, there is no class,
/// and the answer is `usize::MAX`.
pub open spec fn class_of(money: u64, fences: Seq<u64>) -> usize {
    if fences.len() == 0 || is_nan(money) || any_nan(fences) {
        usize::MAX
    } else {
        fences_reached(money, fences) as usize
    }
}

/// Whether the double `a` is less than the double `b`.
pub fn is_less(a: u64, b: u64) -> (answer: bool)
    ensures
        answer == less(a, b),
{
    let top: u64 = 0x8000_0000_0000_0000;
    let a_negative = a >= top;
    let b_negative = b >= top;
    let a_size = if a_negative {
        a - top
    } else {
        a
    };
    let b_size = if b_negative {
        b - top
    } else {
        b
    };
    if a_size > 0x7ff0_0000_0000_0000 || b_size > 0x7ff0_0000_0000_0000 {
        false
    } else if a_negative && b_negative {
        a_size > b_size
    } else if a_negative {
        a_size > 0 || b_size > 0
    } else if b_negative {
        false
    } else {
        a_size < b_size
    }
}

/// Whether the bits are those of a NaN.
pub fn is_not_a_number(bits: u64) -> (answer: bool)
    ensures
        answer == is_nan(bits),
{
    let top: u64 = 0x8000_0000_0000_0000;
    let size = if bits >= top {
        bits - top
    } else {
        bits
    };
    size > 0x7ff0_0000_0000_0000
}

/// Whether `fences` holds no NaN and goes from the least fence to the greatest.
pub open spec fn ascending(fences: Seq<u64>) -> bool {
    &&& !any_nan(fences)
    &&& forall|i: int, j: int|
        0 <= i <= j < fences.len() ==> rank(#[trigger] fences[i]) <= rank(#[trigger] fences[j])
}

/// Among ascending fences the class of a revenue is the position of the
/// first fence above it: the revenue has reached every fence before that
/// position and is less than every fence from there on.
pub proof fn law_class_is_first_fence_above(money: u64, fences: Seq<u64>)
    requires
        ascending(fences),
        !is_nan(money),
    ensures
        fences_reached(money, fences) <= fences.len(),
        0 < fences.len() <= usize::MAX ==> class_of(money, fences) == fences_reached(money, fences),
        forall|i: int|
            0 <= i < fences_reached(money, fences) ==> !less(money, #[trigger] fences[i]),
        forall|i: int|
            fences_reached(money, fences) <= i < fences.len() ==> less(money, #[trigger] fences[i]),
    decreases fences.len(),
{
    if fences.len() > 0 {
        let rest = fences.drop_last();
        law_class_is_first_fence_above(money, rest);
        assert forall|i: int| 0 <= i < fences_reached(money, fences) implies !less(
            money,
            #[trigger] fences[i],
        ) by {
            if i < rest.len() {
                assert(fences[i] == rest[i]);
            }
        }
        assert forall|i: int| fences_reached(money, fences) <= i < fences.len() implies less(
            money,
            #[trigger] fences[i],
        ) by {
            if i < rest.len() {
                assert(fences[i] == rest[i]);
            }
        }
    }
}

/// Taking one fence out takes it out of the count of the fences reached.
proof fn lemma_reached_without(money: u64, fences: Seq<u64>, k: int)
    requires
        0 <= k < fences.len(),
    ensures
        fences_reached(money, fences) == fences_reached(money, fences.remove(k)) + if less(
            money,
            fences[k],
        ) {
            0nat
        } else {
            1nat
        },
    decreases fences.len(),
{
    if k == fences.len() - 1 {
    } else {
        lemma_reached_without(money, fences.drop_last(), k);
        assert(fences.remove(k).drop_last() =~= fences.drop_last().remove(k));
    }
}

/// The same fences in another order are reached as often.
proof fn lemma_reached_in_any_order(money: u64, a: Seq<u64>, b: Seq<u64>)
    requires
        a.to_multiset() == b.to_multiset(),
    ensures
        fences_reached(money, a) == fences_reached(money, b),
    decreases a.len(),
{
    a.to_multiset_ensures();
    b.to_multiset_ensures();
    if a.len() == 0 {
    } else {
        let x = a.last();
        let rest = a.drop_last();
        rest.to_multiset_ensures();
        assert(rest.push(x) =~= a);
        assert(b.to_multiset().count(x) > 0);
        let k = b.index_of(x);
        assert(b.remove(k).to_multiset() =~= rest.to_multiset());
        lemma_reached_in_any_order(money, rest, b.remove(k));
        lemma_reached_without(money, b, k);
    }
}

/// The order of the fences does not matter: fences that are the same but
/// for their order give every revenue the same class.
pub proof fn law_class_ignores_order(money: u64, a: Seq<u64>, b: Seq<u64>)
    requires
        a.to_multiset() == b.to_multiset(),
    ensures
        class_of(money, a) == class_of(money, b),
{
    a.to_multiset_ensures();
    b.to_multiset_ensures();
    lemma_reached_in_any_order(money, a, b);
    if any_nan(a) {
        let k = choose|k: int| 0 <= k < a.len() && is_nan(#[trigger] a[k]);
        assert(a.to_multiset().count(a[k]) > 0);
        let m = b.index_of(a[k]);
    }
    if any_nan(b) {
        let k = choose|k: int| 0 <= k < b.len() && is_nan(#[trigger] b[k]);
        assert(b.to_multiset().count(b[k]) > 0);
        let m = a.index_of(b[k]);
    }
}

/// The class of the revenue `money` among the classes that `fences`
/// bounds. The fences need not be in order.
pub fn categorize(money: u64, fences: &Vec<u64>) -> (class: usize)
    ensures
        class == class_of(money, fences@),
        class != usize::MAX ==> class <= fences.len(),
{
    if fences.len() == 0 || is_not_a_number(money) {
        return usize::MAX;
    }
    let mut reached: usize = 0;
    let mut i: usize = 0;
    while i < fences.len()
        invariant
            i <= fences.len(),
            reached == fences_reached(money, fences@.take(i as int)),
            reached <= i,
            !any_nan(fences@.take(i as int)),
        decreases fences.len() - i,
    {
        let ghost seen = fences@.take(i as int);
        let ghost next = fences@.take(i + 1);
        proof {
            assert(next.drop_last() =~= seen);
        }
        if is_not_a_number(fences[i]) {
            return usize::MAX;
        }
        if !is_less(money, fences[i]) {
            reached += 1;
        }
        i += 1;
    }
    proof {
        assert(fences@.take(fences.len() as int) =~= fences@);
    }
    reached
}

} // verus!
