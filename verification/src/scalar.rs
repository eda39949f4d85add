//! The scalar multiplier: the product of two numbers, and its algebraic laws.

use vstd::prelude::*;
use vstd::arithmetic::mul::{lemma_mul_is_associative, lemma_mul_is_commutative};

verus! {

/// The product of two numbers. The range bound is the one machine limit:
/// the product must fit the cell type.
pub fn multiply(a: i64, b: i64) -> (r: i64)
    requires
        i64::MIN <= a * b <= i64::MAX,
    ensures
        r as int == a * b,
{
    a * b
}

/// The product, guarded by the cell range: `None` exactly when the product
/// would leave it.
pub fn try_multiply(a: i64, b: i64) -> (r: Option<i64>)
    ensures
        (r is Some) <==> i64::MIN <= a * b <= i64::MAX,
        r matches Some(p) ==> p as int == a * b,
{
    a.checked_mul(b)
}

/// Multiplication is commutative: the factors can be swapped.
pub proof fn lemma_multiply_commutative(a: int, b: int)
    ensures
        a * b == b * a,
{
    lemma_mul_is_commutative(a, b);
}

/// Multiplication is associative: grouping does not matter.
pub proof fn lemma_multiply_associative(a: int, b: int, c: int)
    ensures
        (a * b) * c == a * (b * c),
{
    lemma_mul_is_associative(a, b, c);
}

} // verus!
