//! Facts of modular arithmetic used by the Montgomery contracts: an odd
//! modulus lets powers of two be cancelled from a congruence.
use crate::limbs::two_pow_256;
use vstd::arithmetic::div_mod::{
    lemma_fundamental_div_mod, lemma_mod_equivalence, lemma_mod_multiples_basic,
};
use vstd::arithmetic::power2::pow2;
use vstd::prelude::*;

verus! {

/// An odd `p` that divides `2 * z` divides `z`.
pub proof fn lemma_odd_divides_half(z: int, p: int)
    requires
        p > 0,
        p % 2 == 1,
        (2 * z) % p == 0,
    ensures
        z % p == 0,
{
    lemma_fundamental_div_mod(2 * z, p);
    let k = (2 * z) / p;
    assert(2 * z == p * k);
    let h = k / 2;
    assert(k == 2 * h + k % 2);
    if k % 2 == 1 {
        assert(p * k == 2 * (p * h) + p) by (nonlinear_arith)
            requires
                k == 2 * h + 1,
        ;
        assert(p == 2 * (z - p * h));
        assert(false);
    }
    assert(p * k == 2 * (p * h)) by (nonlinear_arith)
        requires
            k == 2 * h,
    ;
    assert(z == h * p) by (nonlinear_arith)
        requires
            2 * z == 2 * (p * h),
    ;
    lemma_mod_multiples_basic(h, p);
}

/// An odd `p` that divides `z * 2^n` divides `z`.
pub proof fn lemma_odd_divides_pow2_multiple(z: int, p: int, n: nat)
    requires
        p > 0,
        p % 2 == 1,
        (z * pow2(n)) % p == 0,
    ensures
        z % p == 0,
    decreases n,
{
    if n == 0 {
        vstd::arithmetic::power2::lemma2_to64();
        assert(z * pow2(0) == z) by (nonlinear_arith)
            requires
                pow2(0) == 1,
        ;
    } else {
        vstd::arithmetic::power2::lemma_pow2_unfold(n);
        assert(z * pow2(n) == 2 * (z * pow2((n - 1) as nat))) by (nonlinear_arith)
            requires
                pow2(n) == 2 * pow2((n - 1) as nat),
        ;
        lemma_odd_divides_half(z * pow2((n - 1) as nat), p);
        lemma_odd_divides_pow2_multiple(z, p, (n - 1) as nat);
    }
}

/// `x * 2^n ≡ y * 2^n (mod p)` with `p` odd implies `x ≡ y (mod p)`.
pub proof fn lemma_cancel_pow2(x: int, y: int, p: int, n: nat)
    requires
        p > 0,
        p % 2 == 1,
        (x * pow2(n)) % p == (y * pow2(n)) % p,
    ensures
        x % p == y % p,
{
    lemma_mod_equivalence(x * pow2(n), y * pow2(n), p);
    assert(x * pow2(n) - y * pow2(n) == (x - y) * pow2(n)) by (nonlinear_arith);
    lemma_odd_divides_pow2_multiple(x - y, p, n);
    lemma_mod_equivalence(x, y, p);
}

/// `2^256` as a power of two.
pub proof fn lemma_two_pow_256()
    ensures
        pow2(256) == two_pow_256(),
        pow2(4) == 16,
{
    vstd::arithmetic::power2::lemma2_to64();
    vstd::arithmetic::power2::lemma2_to64_rest();
    vstd::arithmetic::power2::lemma_pow2_adds(64, 64);
    vstd::arithmetic::power2::lemma_pow2_adds(128, 128);
    let p64 = pow2(64);
    let p128 = pow2(128);
    assert(p128 == 0x100000000000000000000000000000000int) by (nonlinear_arith)
        requires
            p64 == 0x10000000000000000int,
            p128 == p64 * p64,
    ;
    assert(pow2(256) == two_pow_256()) by (nonlinear_arith)
        requires
            p128 == 0x100000000000000000000000000000000int,
            pow2(256) == p128 * p128,
    ;
}

} // verus!
