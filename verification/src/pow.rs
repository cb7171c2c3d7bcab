//! Powers of ten: the scaling factors of the fixed-point representation.

use vstd::prelude::*;

verus! {

/// Mathematical power of ten.
pub open spec fn pow10(e: nat) -> int
    decreases e,
{
    if e == 0 {
        1
    } else {
        10 * pow10((e - 1) as nat)
    }
}

pub proof fn lemma_pow10_pos(e: nat)
    ensures
        pow10(e) >= 1,
    decreases e,
{
    if e > 0 {
        lemma_pow10_pos((e - 1) as nat);
    }
}

pub proof fn lemma_pow10_increases(e1: nat, e2: nat)
    requires
        e1 <= e2,
    ensures
        pow10(e1) <= pow10(e2),
    decreases e2,
{
    if e1 < e2 {
        lemma_pow10_increases(e1, (e2 - 1) as nat);
        lemma_pow10_pos((e2 - 1) as nat);
    }
}

pub proof fn lemma_pow10_adds(a: nat, b: nat)
    ensures
        pow10(a + b) == pow10(a) * pow10(b),
    decreases a,
{
    if a == 0 {
        assert(pow10(0) == 1);
    } else {
        lemma_pow10_adds((a - 1) as nat, b);
        assert(10 * (pow10((a - 1) as nat) * pow10(b)) == (10 * pow10((a - 1) as nat)) * pow10(b))
            by (nonlinear_arith);
    }
}

/// The largest scaling factor of a well-formed scalar.
pub proof fn lemma_pow10_18()
    ensures
        pow10(18) == 1000000000000000000,
{
    reveal_with_fuel(pow10, 19);
}

/// Every scaling exponent the library uses stays at or below this literal,
/// which keeps the scaled mantissas well inside `i128`.
pub proof fn lemma_pow10_23()
    ensures
        pow10(23) == 100000000000000000000000,
{
    reveal_with_fuel(pow10, 24);
}

/// Executable power of ten, for exponents up to the division scale bound.
pub fn pow10_i128(e: u32) -> (r: i128)
    requires
        e <= 23,
    ensures
        r == pow10(e as nat),
        1 <= r <= 100000000000000000000000,
{
    proof {
        lemma_pow10_23();
        lemma_pow10_pos(e as nat);
        lemma_pow10_increases(e as nat, 23);
    }
    let mut r: i128 = 1;
    let mut i: u32 = 0;
    while i < e
        invariant
            i <= e <= 23,
            r == pow10(i as nat),
            r >= 1,
        decreases e - i,
    {
        proof {
            lemma_pow10_23();
            lemma_pow10_increases((i + 1) as nat, 23);
        }
        r = r * 10;
        i = i + 1;
    }
    r
}

} // verus!
