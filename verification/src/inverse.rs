//! The Montgomery constant `-p^{-1} mod 2^52`, computed by Newton iteration.
use crate::limbs::{radix, MASK_52};
use vstd::arithmetic::div_mod::{
    lemma_fundamental_div_mod, lemma_mod_multiples_basic, lemma_mod_bound,
    lemma_fundamental_div_mod_converse,
};
use vstd::prelude::*;

verus! {

/// `2^64`.
#[verifier::inline]
pub open spec fn two_pow_64() -> int {
    0x10000000000000000int
}

/// The power of two modulo which `m * inv ≡ 1` holds after `k` Newton steps
/// started from `inv = 1`: the precision doubles at each step, up to 52 bits.
pub open spec fn newton_precision(k: int) -> int {
    if k <= 0 {
        2
    } else if k == 1 {
        4
    } else if k == 2 {
        16
    } else if k == 3 {
        0x100
    } else if k == 4 {
        0x10000
    } else if k == 5 {
        0x100000000
    } else {
        radix()
    }
}

/// `r` is `-m^{-1}` modulo `2^52`, reduced to 52 bits.
pub open spec fn is_neg_inv_52(m: int, r: int) -> bool {
    &&& 0 <= r <= MASK_52
    &&& (m * r + 1) % radix() == 0
}

/// `x & (2^52 - 1) == x % 2^52`.
proof fn lemma_mask_is_mod(x: u64)
    ensures
        (x & MASK_52) as int == x as int % radix(),
{
    assert((x & 0xFFFFFFFFFFFFFu64) == x % 0x10000000000000u64) by (bit_vector);
}

/// One Newton step `y = x * (2 - m * x)`, computed with 64-bit wrapping
/// arithmetic and then reduced to 52 bits, squares the precision of the
/// inverse (capped at 52 bits).
proof fn lemma_newton_step(
    m: u64,
    x: u64,
    u: u64,
    v: u64,
    w: u64,
    y: u64,
    q: int,
    q2: int,
    f1: int,
    f2: int,
)
    requires
        q > 0,
        q2 > 0,
        q * q == q2 * f1,
        radix() == q2 * f2,
        (m as int * x as int - 1) % q == 0,
        u as int == (m as int * x as int) % two_pow_64(),
        v as int == 2 - u as int || v as int == 2 - u as int + two_pow_64(),
        w as int == (x as int * v as int) % two_pow_64(),
        y as int == w as int % radix(),
    ensures
        (m as int * y as int - 1) % q2 == 0,
{
    let mi = m as int;
    let xi = x as int;
    let mx = mi * xi;
    lemma_fundamental_div_mod(mx - 1, q);
    let t = (mx - 1) / q;
    assert(mx == 1 + q * t);
    lemma_fundamental_div_mod(mx, two_pow_64());
    let a = mx / two_pow_64();
    assert(u as int == mx - two_pow_64() * a);
    let b: int = if v as int == 2 - u as int { 0 } else { 1 };
    assert(v as int == 2 - mx + two_pow_64() * (a + b));
    lemma_fundamental_div_mod(xi * v as int, two_pow_64());
    let c = (xi * v as int) / two_pow_64();
    assert(w as int == xi * v as int - two_pow_64() * c);
    lemma_fundamental_div_mod(w as int, radix());
    let d = (w as int) / radix();
    assert(y as int == w as int - radix() * d);
    let e = 4096 * (xi * (a + b) - c) - d;
    assert(xi * v as int == xi * (2 - mx) + two_pow_64() * (xi * (a + b))) by (nonlinear_arith)
        requires
            v as int == 2 - mx + two_pow_64() * (a + b),
    ;
    assert(y as int == xi * (2 - mx) + radix() * e);
    let k1 = t * t * f1;
    let k2 = mi * f2 * e;
    let k = k2 - k1;
    let yi = y as int;
    assert(mi * yi == mx * (2 - mx) + mi * radix() * e) by (nonlinear_arith)
        requires
            yi == xi * (2 - mx) + radix() * e,
            mx == mi * xi,
    ;
    assert(mx * (2 - mx) - 1 == -((q * t) * (q * t))) by (nonlinear_arith)
        requires
            mx == 1 + q * t,
    ;
    assert((q * t) * (q * t) == q2 * k1) by (nonlinear_arith)
        requires
            q * q == q2 * f1,
            k1 == t * t * f1,
    ;
    assert(mi * radix() * e == q2 * k2) by (nonlinear_arith)
        requires
            radix() == q2 * f2,
            k2 == mi * f2 * e,
    ;
    assert(q2 * k == q2 * k2 - q2 * k1) by (nonlinear_arith)
        requires
            k == k2 - k1,
    ;
    assert(mi * yi - 1 == q2 * k);
    lemma_mod_multiples_basic(k, q2);
    assert(k * q2 == q2 * k) by (nonlinear_arith);
}

/// Compute `-modulus^{-1} mod 2^52` for Montgomery reduction.
///
/// Newton iteration `inv = inv * (2 - modulus * inv)` doubles the number of
/// correct low bits at each step; six steps starting from `inv = 1` (correct
/// to one bit for an odd modulus) reach 52 bits. For an even modulus no
/// inverse exists; the result is then still a 52-bit value.
pub fn compute_inv_52(modulus_low: u64) -> (r: u64)
    ensures
        r <= MASK_52,
        modulus_low % 2 == 1 ==> is_neg_inv_52(modulus_low as int, r as int),
{
    let mut inv = 1u64;
    let mask = MASK_52;
    proof {
        if modulus_low % 2 == 1 {
            assert((modulus_low as int * 1 - 1) % 2 == 0);
        }
    }
    for k in 0..6u64
        invariant
            mask == MASK_52,
            inv <= MASK_52,
            modulus_low % 2 == 1 ==> (modulus_low as int * inv as int - 1) % newton_precision(
                k as int,
            ) == 0,
    {
        let u = modulus_low.wrapping_mul(inv);
        let v = 2u64.wrapping_sub(u);
        let w = inv.wrapping_mul(v);
        let next = w & mask;
        proof {
            lemma_mask_is_mod(w);
            lemma_mod_bound(w as int, radix());
            if modulus_low % 2 == 1 {
                let q = newton_precision(k as int);
                let q2 = newton_precision(k as int + 1);
                if k == 0 {
                    lemma_newton_step(modulus_low, inv, u, v, w, next, q, q2, 1, radix() / 4);
                } else if k == 1 {
                    lemma_newton_step(modulus_low, inv, u, v, w, next, q, q2, 1, radix() / 16);
                } else if k == 2 {
                    lemma_newton_step(modulus_low, inv, u, v, w, next, q, q2, 1, radix() / 0x100);
                } else if k == 3 {
                    lemma_newton_step(
                        modulus_low,
                        inv,
                        u,
                        v,
                        w,
                        next,
                        q,
                        q2,
                        1,
                        radix() / 0x10000,
                    );
                } else if k == 4 {
                    lemma_newton_step(
                        modulus_low,
                        inv,
                        u,
                        v,
                        w,
                        next,
                        q,
                        q2,
                        1,
                        radix() / 0x100000000,
                    );
                } else {
                    lemma_newton_step(modulus_low, inv, u, v, w, next, q, q2, 0x1000, 1);
                }
            }
        }
        inv = next;
    }
    let r = (mask + 1 - inv) & mask;
    proof {
        lemma_mask_is_mod((mask + 1 - inv) as u64);
        lemma_mod_bound((mask + 1 - inv) as int, radix());
        if modulus_low % 2 == 1 {
            let mi = modulus_low as int;
            let ii = inv as int;
            lemma_fundamental_div_mod(mi * ii - 1, radix());
            let t = (mi * ii - 1) / radix();
            assert(ii != 0) by {
                if ii == 0 {
                    assert(-1int % radix() == radix() - 1);
                }
            }
            assert(r as int == radix() - ii) by {
                lemma_fundamental_div_mod_converse(radix() - ii, radix(), 0, radix() - ii);
            }
            assert(mi * (r as int) + 1 == radix() * (mi - t)) by (nonlinear_arith)
                requires
                    r as int == radix() - ii,
                    mi * ii - 1 == radix() * t,
            ;
            lemma_mod_multiples_basic(mi - t, radix());
            assert((mi - t) * radix() == radix() * (mi - t)) by (nonlinear_arith);
        }
    }
    r
}

} // verus!
