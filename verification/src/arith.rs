//! Sums of amounts and shares of totals, with the results that do not fit told
//! apart from those that do.

use vstd::prelude::*;

verus! {

/// The sum of a list of amounts.
pub open spec fn sum(amounts: Seq<i128>) -> int
    decreases amounts.len(),
{
    if amounts.len() == 0 {
        0
    } else {
        sum(amounts.drop_last()) + amounts.last()
    }
}

/// `value` is one that an `i128` can hold.
pub open spec fn fits(value: int) -> bool {
    i128::MIN <= value <= i128::MAX
}

/// Adding the amounts up from the first to the last never leaves the range of
/// an `i128`.
pub open spec fn sum_fits(amounts: Seq<i128>) -> bool {
    forall|n: int| 0 <= n <= amounts.len() ==> fits(#[trigger] sum(amounts.take(n)))
}

/// A sum that never leaves the range on the way does not do so in the end.
pub proof fn lemma_sum_fits(amounts: Seq<i128>)
    requires
        sum_fits(amounts),
    ensures
        fits(sum(amounts)),
{
    assert(amounts.take(amounts.len() as int) =~= amounts);
}

/// Division that rounds towards zero.
pub open spec fn quotient(a: int, b: int) -> int {
    if a >= 0 {
        a / b
    } else {
        -((-a) / b)
    }
}

/// The sum of `amounts`, unless adding them up overflows.
pub fn checked_sum(amounts: &Vec<i128>) -> (r: Option<i128>)
    ensures
        r is Some <==> sum_fits(amounts@),
        r matches Some(total) ==> total == sum(amounts@),
{
    let mut total: i128 = 0;
    let mut i: usize = 0;
    while i < amounts.len()
        invariant
            i <= amounts@.len(),
            total == sum(amounts@.take(i as int)),
            forall|n: int| 0 <= n <= i ==> fits(#[trigger] sum(amounts@.take(n))),
        decreases amounts@.len() - i,
    {
        assert(amounts@.take(i + 1).drop_last() =~= amounts@.take(i as int));
        match total.checked_add(amounts[i]) {
            Some(next) => {
                total = next;
            },
            None => {
                assert(!fits(sum(amounts@.take(i + 1))));
                return None;
            },
        }
        i += 1;
    }
    assert(amounts@.take(i as int) =~= amounts@);
    Some(total)
}

/// `a * b / d`, rounded towards zero, unless the product overflows.
pub fn checked_mul_div(a: i128, b: i128, d: i128) -> (r: Option<i128>)
    requires
        d > 0,
    ensures
        r is Some <==> fits(a * b),
        r matches Some(q) ==> q == quotient(a * b, d as int),
{
    match a.checked_mul(b) {
        Some(product) => Some(product / d),
        None => None,
    }
}

} // verus!
