//! Wide-integer helpers: the integer square root used to price a first
//! deposit, and the bound that lets its result be narrowed to 64 bits.

use vstd::prelude::*;

verus! {

/// Relies on integer_sqrt::IntegerSquareRoot::integer_sqrt for u128: the
/// floor of the square root, computed digit by digit; it never panics on an
/// unsigned argument.
#[verifier::external_body]
pub(crate) fn isqrt_u128(n: u128) -> (r: u128)
    ensures
        r * r <= n,
        (r + 1) * (r + 1) > n,
{
    integer_sqrt::IntegerSquareRoot::integer_sqrt(&n)
}

/// The floor square root of a product of two 64-bit values fits in 64 bits.
pub proof fn lemma_sqrt_fits_u64(n: u128, r: u128)
    requires
        r * r <= n,
        n <= u64::MAX * u64::MAX,
    ensures
        r <= u64::MAX,
{
    if r > u64::MAX {
        assert((r as int) * (r as int) > (u64::MAX as int) * (u64::MAX as int))
            by (nonlinear_arith)
            requires
                r as int > u64::MAX as int,
        ;
    }
}

} // verus!
