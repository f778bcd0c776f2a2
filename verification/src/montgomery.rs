//! Montgomery multiplication in radix `2^52` (CIOS: coarsely integrated
//! operand scanning), one 256-bit operand pair at a time.
use crate::inverse::is_neg_inv_52;
use crate::limbs::{
    from_52bit_limbs, lemma_value52_split_256, lemma_value64_bound, normalized52, radix,
    two_pow_256, value52, value64, MASK_52,
};
use crate::modular::{lemma_cancel_pow2, lemma_two_pow_256};
use crate::reduce::{geq_256, sub_256};
use vstd::arithmetic::div_mod::{
    lemma_fundamental_div_mod, lemma_mod_multiples_basic, lemma_mod_bound, lemma_mod_mod,
    lemma_mod_multiples_vanish,
};
use vstd::prelude::*;

verus! {

/// The integer denoted by six radix-`2^52` limbs (the CIOS accumulator).
pub open spec fn value52_6(t: [u64; 6]) -> int {
    t[0] as int + t[1] as int * 0x10000000000000 + t[2] as int * 0x100000000000000000000000000int
        + t[3] as int * 0x1000000000000000000000000000000000000000int + t[4] as int
        * 0x10000000000000000000000000000000000000000000000000000int + t[5] as int
        * 0x100000000000000000000000000000000000000000000000000000000000000000int
}

/// Low 52 bits of the product of two 52-bit values.
pub open spec fn lo52(x: int, y: int) -> int {
    (x * y) % radix()
}

/// Bits 52..103 of the product of two 52-bit values.
pub open spec fn hi52(x: int, y: int) -> int {
    (x * y) / radix()
}

proof fn lemma_lo_hi(x: int, y: int)
    requires
        0 <= x <= MASK_52,
        0 <= y <= MASK_52,
    ensures
        0 <= x * y,
        x * y == lo52(x, y) + hi52(x, y) * radix(),
        0 <= lo52(x, y) <= MASK_52,
        0 <= hi52(x, y) < MASK_52,
{
    assert(0 <= x * y <= MASK_52 * MASK_52) by (nonlinear_arith)
        requires
            0 <= x <= MASK_52,
            0 <= y <= MASK_52,
    ;
    lemma_fundamental_div_mod(x * y, radix());
    lemma_mod_bound(x * y, radix());
    assert(hi52(x, y) < MASK_52) by (nonlinear_arith)
        requires
            x * y == lo52(x, y) + hi52(x, y) * radix(),
            0 <= lo52(x, y),
            x * y <= MASK_52 * MASK_52,
    ;
    assert(0 <= hi52(x, y)) by (nonlinear_arith)
        requires
            x * y == lo52(x, y) + hi52(x, y) * radix(),
            lo52(x, y) < radix(),
            0 <= x * y,
    ;
}

/// `acc + (x * y)[51:0]`: the lane operation of `VPMADD52LUQ`.
fn madd52lo(acc: u64, x: u64, y: u64) -> (r: u64)
    requires
        x <= MASK_52,
        y <= MASK_52,
        acc <= u64::MAX - MASK_52,
    ensures
        r == acc + lo52(x as int, y as int),
{
    proof {
        lemma_lo_hi(x as int, y as int);
    }
    let prod: u128 = (x as u128) * (y as u128);
    let lo = (prod as u64) & MASK_52;
    assert(lo as int == (prod as int) % radix()) by {
        assert((prod as u64) & 0xFFFFFFFFFFFFFu64 == prod % 0x10000000000000u128) by (bit_vector);
    }
    acc + lo
}

/// `acc + (x * y)[103:52]`: the lane operation of `VPMADD52HUQ`.
fn madd52hi(acc: u64, x: u64, y: u64) -> (r: u64)
    requires
        x <= MASK_52,
        y <= MASK_52,
        acc <= u64::MAX - MASK_52,
    ensures
        r == acc + hi52(x as int, y as int),
{
    proof {
        lemma_lo_hi(x as int, y as int);
    }
    let prod: u128 = (x as u128) * (y as u128);
    assert((prod >> 52) as int == (prod as int) / radix()) by {
        assert(prod >> 52 == prod / 0x10000000000000u128) by (bit_vector);
    }
    let hi = (prod >> 52) as u64;
    acc + hi
}

/// `t += a * s`, with the low halves of the limb products added in place
/// and the high halves added one limb up.
fn mul_acc(t: &mut [u64; 6], a: &[u64; 5], s: u64)
    requires
        normalized52(*a),
        s <= MASK_52,
        forall|j: int| 0 <= j < 6 ==> old(t)[j] <= u64::MAX - 2 * MASK_52,
    ensures
        value52_6(*final(t)) == value52_6(*old(t)) + value52(*a) * s,
        final(t)[0] == old(t)[0] + lo52(a[0] as int, s as int),
        forall|j: int| 0 <= j < 6 ==> old(t)[j] <= #[trigger] final(t)[j] <= old(t)[j] + 2 * MASK_52,
{
    let ghost t0 = *t;
    for j in 0..5
        invariant
            normalized52(*a),
            s <= MASK_52,
            forall|k: int| 0 <= k < 6 ==> t0[k] <= u64::MAX - 2 * MASK_52,
            forall|k: int| 0 <= k < j ==> t[k] == t0[k] + lo52(a[k] as int, s as int),
            forall|k: int| j <= k < 6 ==> t[k] == t0[k],
    {
        assert(t[j as int] == t0[j as int]);
        assert(t0[j as int] <= u64::MAX - 2 * MASK_52);
        t[j] = madd52lo(t[j], a[j], s);
    }
    let ghost t1 = *t;
    for j in 0..5
        invariant
            normalized52(*a),
            s <= MASK_52,
            forall|k: int| 0 <= k < 6 ==> t0[k] <= u64::MAX - 2 * MASK_52,
            forall|k: int| 0 <= k < 5 ==> t1[k] == t0[k] + lo52(a[k] as int, s as int),
            t1[5] == t0[5],
            forall|k: int| 0 <= k <= j ==> t[k] == t1[k] + (if k == 0 {
                0
            } else {
                hi52(a[k - 1] as int, s as int)
            }),
            forall|k: int| j < k < 6 ==> t[k] == t1[k],
    {
        proof {
            lemma_lo_hi(a[j as int] as int, s as int);
            if (j as int) + 1 < 5 {
                lemma_lo_hi(a[j as int + 1] as int, s as int);
            }
            assert(t[j + 1] == t1[j + 1]);
            assert(t0[j + 1] <= u64::MAX - 2 * MASK_52);
        }
        t[j + 1] = madd52hi(t[j + 1], a[j], s);
    }
    proof {
        let si = s as int;
        let a0 = a[0] as int;
        let a1 = a[1] as int;
        let a2 = a[2] as int;
        let a3 = a[3] as int;
        let a4 = a[4] as int;
        lemma_lo_hi(a0, si);
        lemma_lo_hi(a1, si);
        lemma_lo_hi(a2, si);
        lemma_lo_hi(a3, si);
        lemma_lo_hi(a4, si);
        assert(value52(*a) * si == a0 * si + (a1 * si) * 0x10000000000000 + (a2 * si)
            * 0x100000000000000000000000000int + (a3 * si)
            * 0x1000000000000000000000000000000000000000int + (a4 * si)
            * 0x10000000000000000000000000000000000000000000000000000int) by (nonlinear_arith)
            requires
                value52(*a) == a0 + a1 * 0x10000000000000 + a2 * 0x100000000000000000000000000int
                    + a3 * 0x1000000000000000000000000000000000000000int + a4
                    * 0x10000000000000000000000000000000000000000000000000000int,
        ;
    }
}

/// Adding `m * p`, where `m = t0 * inv mod 2^52` and `p0 * inv ≡ -1`,
/// clears the low 52 bits of the bottom limb.
proof fn lemma_reduction_clears_low_limb(t0: int, inv: int, p0: int, m: int)
    requires
        0 <= t0,
        m == (t0 * inv) % radix(),
        (p0 * inv + 1) % radix() == 0,
    ensures
        (t0 + (m * p0) % radix()) % radix() == 0,
{
    let w = radix();
    lemma_fundamental_div_mod(t0 * inv, w);
    let q1 = (t0 * inv) / w;
    lemma_fundamental_div_mod(p0 * inv + 1, w);
    let q2 = (p0 * inv + 1) / w;
    lemma_fundamental_div_mod(m * p0, w);
    let q3 = (m * p0) / w;
    let k = t0 * q2 - q1 * p0 - q3;
    assert(m * p0 == (t0 * inv) * p0 - (w * q1) * p0) by (nonlinear_arith)
        requires
            t0 * inv == w * q1 + m,
    ;
    assert((t0 * inv) * p0 == t0 * (p0 * inv)) by (nonlinear_arith);
    assert(t0 * (p0 * inv) == t0 * (w * q2) - t0) by (nonlinear_arith)
        requires
            p0 * inv + 1 == w * q2,
    ;
    assert((w * q1) * p0 == w * (q1 * p0)) by (nonlinear_arith);
    assert(t0 * (w * q2) == w * (t0 * q2)) by (nonlinear_arith);
    assert(t0 + (m * p0) % w == w * k);
    assert(w * k == k * w) by (nonlinear_arith);
    lemma_mod_multiples_basic(k, w);
}

/// One CIOS round: `t = (t + a * b_i + m * p) / 2^52`, where the
/// Montgomery factor `m = t[0] * inv mod 2^52` makes the division exact.
/// Returns `m`.
fn cios_round(
    t: &mut [u64; 6],
    a: &[u64; 5],
    b_i: u64,
    p: &[u64; 5],
    inv: u64,
    Ghost(bound): Ghost<int>,
) -> (m: u64)
    requires
        normalized52(*a),
        normalized52(*p),
        b_i <= MASK_52,
        is_neg_inv_52(p[0] as int, inv as int),
        0 <= bound <= 20 * MASK_52,
        old(t)[5] == 0,
        forall|j: int| 0 <= j < 5 ==> old(t)[j] <= bound,
    ensures
        m <= MASK_52,
        final(t)[5] == 0,
        forall|j: int| 0 <= j < 5 ==> #[trigger] final(t)[j] <= bound + 5 * MASK_52,
        value52_6(*final(t)) * radix() == value52_6(*old(t)) + value52(*a) * b_i + (m as int)
            * value52(*p),
{
    let ghost t_in = *t;
    mul_acc(t, a, b_i);
    let ghost t_mid = *t;
    let t0 = t[0];
    let wm = t0.wrapping_mul(inv);
    let m = wm & MASK_52;
    proof {
        assert(wm & 0xFFFFFFFFFFFFFu64 == wm % 0x10000000000000u64) by (bit_vector);
        lemma_mod_mod(t0 as int * inv as int, radix(), 4096);
        assert(m as int == (t_mid[0] as int * inv as int) % radix());
        assert(m <= MASK_52);
    }
    mul_acc(t, p, m);
    proof {
        lemma_lo_hi(m as int, p[0] as int);
        assert(t[0] == t_mid[0] + lo52(p[0] as int, m as int)) by {
            lemma_lo_hi(p[0] as int, m as int);
            assert(p[0] as int * m as int == m as int * p[0] as int) by (nonlinear_arith);
        }
        lemma_reduction_clears_low_limb(t_mid[0] as int, inv as int, p[0] as int, m as int);
    }
    let ghost t_red = *t;
    let carry = t[0] >> 52;
    proof {
        let t0 = t[0];
        assert(t0 as int == (t0 >> 52) as int * radix() + t0 as int % radix()) by {
            assert(t0 >> 52 == t0 / 0x10000000000000u64) by (bit_vector);
            lemma_fundamental_div_mod(t0 as int, radix());
        }
        assert(carry <= MASK_52) by {
            assert(t0 >> 52 <= 0xFFFu64) by (bit_vector);
        }
        assert(p[0] as int * m as int == m as int * p[0] as int) by (nonlinear_arith);
        assert(lo52(p[0] as int, m as int) == (m as int * p[0] as int) % radix());
        assert(t0 as int % radix() == 0);
        assert(t0 as int == carry as int * radix());
    }
    t[1] = t[1] + carry;
    for j in 0..5
        invariant
            forall|k: int| 0 <= k < j ==> t[k] as int == (if k == 0 {
                t_red[1] + carry
            } else {
                t_red[k + 1] as int
            }),
            forall|k: int| j <= k < 6 ==> t[k] as int == (if k == 1 {
                t_red[1] + carry
            } else {
                t_red[k] as int
            }),
    {
        t[j] = t[j + 1];
    }
    t[5] = 0;
    proof {
        assert(t[0] == t_red[1] + carry);
        assert(t[1] == t_red[2] && t[2] == t_red[3] && t[3] == t_red[4] && t[4] == t_red[5]);
        assert(t_red[0] as int == carry as int * radix());
        assert(value52_6(*t) * radix() == value52_6(t_red));
        assert(value52(*p) * (m as int) == (m as int) * value52(*p)) by (nonlinear_arith);
        assert(forall|j: int| 0 <= j < 5 ==> #[trigger] t[j] <= bound + 5 * MASK_52) by {
            assert(t_in[5] == 0);
        }
    }
    m
}

/// `2^(52 i)`.
pub open spec fn radix_pow(i: nat) -> int
    decreases i,
{
    if i == 0 {
        1
    } else {
        radix() * radix_pow((i - 1) as nat)
    }
}

/// The value of the lowest `i` radix-`2^52` limbs of `l`.
pub open spec fn low_limbs52(l: [u64; 5], i: nat) -> int
    decreases i,
{
    if i == 0 {
        0
    } else {
        low_limbs52(l, (i - 1) as nat) + l[i - 1] as int * radix_pow((i - 1) as nat)
    }
}

/// `2^260`, the Montgomery radix of five 52-bit limbs.
#[verifier::inline]
pub open spec fn two_pow_260() -> int {
    0x100000000000000000000000000000000000000000000000000000000000000000int
}

proof fn lemma_radix_pow_5()
    ensures
        radix_pow(5) == two_pow_260(),
        forall|l: [u64; 5]| #[trigger] low_limbs52(l, 5) == value52(l),
{
    reveal_with_fuel(radix_pow, 6);
    assert(radix_pow(1) == radix());
    assert(radix_pow(2) == 0x100000000000000000000000000int);
    assert(radix_pow(3) == 0x1000000000000000000000000000000000000000int);
    assert(radix_pow(4) == 0x10000000000000000000000000000000000000000000000000000int);
    assert(radix_pow(5) == two_pow_260());
    assert forall|l: [u64; 5]| #[trigger] low_limbs52(l, 5) == value52(l) by {
        reveal_with_fuel(low_limbs52, 6);
        reveal_with_fuel(radix_pow, 6);
        assert(radix_pow(0) == 1);
        assert(low_limbs52(l, 0) == 0);
        assert(low_limbs52(l, 1) == l[0] as int);
        assert(low_limbs52(l, 2) == l[0] as int + l[1] as int * radix());
        assert(low_limbs52(l, 3) == low_limbs52(l, 2) + l[2] as int * radix_pow(2));
        assert(low_limbs52(l, 4) == low_limbs52(l, 3) + l[3] as int * radix_pow(3));
        assert(low_limbs52(l, 5) == low_limbs52(l, 4) + l[4] as int * radix_pow(4));
    }
}

/// Folding one more round into the CIOS invariant
/// `T_i * 2^(52 i) == a * (b mod 2^(52 i)) + M_i * p`.
proof fn lemma_cios_step(
    old_v: int,
    new_v: int,
    a: int,
    b_i: int,
    p: int,
    m: int,
    mm: int,
    rp: int,
    low_b: int,
)
    requires
        new_v * radix() == old_v + a * b_i + m * p,
        old_v * rp == a * low_b + mm * p,
        0 <= mm < rp,
        0 <= m <= MASK_52,
    ensures
        new_v * (radix() * rp) == a * (low_b + b_i * rp) + (mm + m * rp) * p,
        0 <= mm + m * rp < radix() * rp,
{
    assert(new_v * (radix() * rp) == (new_v * radix()) * rp) by (nonlinear_arith);
    assert((old_v + a * b_i + m * p) * rp == old_v * rp + a * (b_i * rp) + (m * rp) * p)
        by (nonlinear_arith);
    assert(a * low_b + a * (b_i * rp) == a * (low_b + b_i * rp)) by (nonlinear_arith);
    assert(mm * p + (m * rp) * p == (mm + m * rp) * p) by (nonlinear_arith);
    assert(0 <= mm + m * rp < radix() * rp) by (nonlinear_arith)
        requires
            0 <= mm < rp,
            0 <= m <= MASK_52,
    ;
}

/// `t * 2^260 == a * b + mm * p` with a Montgomery quotient `0 <= mm < 2^260`.
pub open spec fn redc_relation(t: int, a: int, b: int, p: int, mm: int) -> bool {
    0 <= mm < two_pow_260() && t * two_pow_260() == a * b + mm * p
}

/// Five CIOS rounds: returns `T` (redundant limbs) with
/// `T * 2^260 == a * b + M * p` for some `0 <= M < 2^260`.
fn cios(a: &[u64; 5], b: &[u64; 5], p: &[u64; 5], inv: u64) -> (t: [u64; 6])
    requires
        normalized52(*a),
        normalized52(*b),
        normalized52(*p),
        is_neg_inv_52(p[0] as int, inv as int),
    ensures
        t[5] == 0,
        forall|j: int| 0 <= j < 5 ==> #[trigger] t[j] <= 25 * MASK_52,
        exists|mm: int| #[trigger] redc_relation(value52_6(t), value52(*a), value52(*b), value52(*p), mm),
{
    let mut t = [0u64; 6];
    let ghost mut mm: int = 0;
    proof {
        reveal_with_fuel(radix_pow, 1);
        reveal_with_fuel(low_limbs52, 1);
    }
    for i in 0..5
        invariant
            normalized52(*a),
            normalized52(*b),
            normalized52(*p),
            is_neg_inv_52(p[0] as int, inv as int),
            t[5] == 0,
            forall|j: int| 0 <= j < 5 ==> #[trigger] t[j] <= 5 * (i as int) * MASK_52,
            0 <= mm < radix_pow(i as nat),
            value52_6(t) * radix_pow(i as nat) == value52(*a) * low_limbs52(*b, i as nat) + mm
                * value52(*p),
    {
        let ghost t_old = t;
        let m = cios_round(&mut t, a, b[i], p, inv, Ghost(5 * (i as int) * MASK_52));
        proof {
            lemma_cios_step(
                value52_6(t_old),
                value52_6(t),
                value52(*a),
                b[i as int] as int,
                value52(*p),
                m as int,
                mm,
                radix_pow(i as nat),
                low_limbs52(*b, i as nat),
            );
            mm = mm + m * radix_pow(i as nat);
            assert(radix_pow((i + 1) as nat) == radix() * radix_pow(i as nat));
            assert(low_limbs52(*b, (i + 1) as nat) == low_limbs52(*b, i as nat) + b[i as int] as int
                * radix_pow(i as nat));
        }
    }
    proof {
        lemma_radix_pow_5();
        assert(low_limbs52(*b, 5) == value52(*b));
        assert(redc_relation(value52_6(t), value52(*a), value52(*b), value52(*p), mm));
    }
    t
}

proof fn lemma_low_limbs52_agree(l1: [u64; 5], l2: [u64; 5], j: nat)
    requires
        forall|k: int| 0 <= k < j ==> l1[k] == l2[k],
    ensures
        low_limbs52(l1, j) == low_limbs52(l2, j),
    decreases j,
{
    if j > 0 {
        lemma_low_limbs52_agree(l1, l2, (j - 1) as nat);
    }
}

/// Propagate carries so that every limb fits in 52 bits; returns the carry
/// out of the top limb.
fn normalize_limbs(t_52: &mut [u64; 5]) -> (carry: u64)
    requires
        forall|j: int| 0 <= j < 5 ==> #[trigger] old(t_52)[j] <= 25 * MASK_52,
    ensures
        normalized52(*final(t_52)),
        value52(*final(t_52)) + carry as int * two_pow_260() == value52(*old(t_52)),
{
    let ghost t_in = *t_52;
    let mut carry = 0u64;
    proof {
        reveal_with_fuel(radix_pow, 1);
        reveal_with_fuel(low_limbs52, 1);
    }
    for j in 0..5
        invariant
            forall|k: int| 0 <= k < 5 ==> #[trigger] t_in[k] <= 25 * MASK_52,
            forall|k: int| j <= k < 5 ==> t_52[k] == t_in[k],
            forall|k: int| 0 <= k < j ==> #[trigger] t_52[k] <= MASK_52,
            carry <= 26,
            low_limbs52(*t_52, j as nat) + carry as int * radix_pow(j as nat) == low_limbs52(
                t_in,
                j as nat,
            ),
    {
        let ghost before = *t_52;
        let ghost c_in = carry;
        assert(t_52[j as int] == t_in[j as int]);
        assert(t_in[j as int] <= 25 * MASK_52);
        let x = t_52[j] + carry;
        carry = x >> 52;
        t_52[j] = x & MASK_52;
        proof {
            assert(x as int == (x & MASK_52) as int + (x >> 52) as int * radix()) by {
                assert(x == (x & 0xFFFFFFFFFFFFFu64) + (x >> 52) * 0x10000000000000u64)
                    by (bit_vector);
            }
            assert(x & MASK_52 <= MASK_52) by {
                assert(x & 0xFFFFFFFFFFFFFu64 <= 0xFFFFFFFFFFFFFu64) by (bit_vector);
            }
            assert(carry <= 26) by {
                assert(x >> 52 <= 26) by (bit_vector)
                    requires
                        x <= 26 * 0xFFFFFFFFFFFFFu64,
                ;
            }
            lemma_low_limbs52_agree(*t_52, before, j as nat);
            let rp = radix_pow(j as nat);
            assert(radix_pow((j + 1) as nat) == radix() * rp);
            assert(low_limbs52(*t_52, (j + 1) as nat) == low_limbs52(*t_52, j as nat)
                + t_52[j as int] as int * rp);
            assert(low_limbs52(t_in, (j + 1) as nat) == low_limbs52(t_in, j as nat)
                + t_in[j as int] as int * rp);
            assert(t_52[j as int] as int * rp + carry as int * (radix() * rp) == (t_in[j as int]
                + c_in) * rp) by (nonlinear_arith)
                requires
                    x as int == t_52[j as int] as int + carry as int * radix(),
                    x as int == t_in[j as int] + c_in,
            ;
            assert((t_in[j as int] + c_in) * rp == t_in[j as int] as int * rp + c_in as int * rp)
                by (nonlinear_arith);
        }
    }
    proof {
        lemma_radix_pow_5();
    }
    carry
}

/// Multiply a 256-bit value in normalized radix-`2^52` limbs by 16 (shift
/// left by 4 bits); the result still fits in five 52-bit limbs.
fn mul_by_16(l: &[u64; 5]) -> (r: [u64; 5])
    requires
        normalized52(*l),
        l[4] < 0x1000000000000,
    ensures
        normalized52(r),
        value52(r) == 16 * value52(*l),
{
    let r = [
        (l[0] << 4) & MASK_52,
        ((l[1] << 4) & MASK_52) | (l[0] >> 48),
        ((l[2] << 4) & MASK_52) | (l[1] >> 48),
        ((l[3] << 4) & MASK_52) | (l[2] >> 48),
        ((l[4] << 4) & MASK_52) | (l[3] >> 48),
    ];
    proof {
        let l0 = l[0];
        let l1 = l[1];
        let l2 = l[2];
        let l3 = l[3];
        let l4 = l[4];
        assert(((l0 << 4) & 0xFFFFFFFFFFFFFu64) as int == (l0 & 0xFFFFFFFFFFFFu64) as int * 16)
            by (bit_vector);
        assert(l0 as int == (l0 & 0xFFFFFFFFFFFFu64) as int + (l0 >> 48) as int * 0x1000000000000)
            by (bit_vector);
        assert(l1 as int == (l1 & 0xFFFFFFFFFFFFu64) as int + (l1 >> 48) as int * 0x1000000000000)
            by (bit_vector);
        assert(l2 as int == (l2 & 0xFFFFFFFFFFFFu64) as int + (l2 >> 48) as int * 0x1000000000000)
            by (bit_vector);
        assert(l3 as int == (l3 & 0xFFFFFFFFFFFFu64) as int + (l3 >> 48) as int * 0x1000000000000)
            by (bit_vector);
        assert(((l1 << 4) & 0xFFFFFFFFFFFFFu64) | (l0 >> 48) == (l1 & 0xFFFFFFFFFFFFu64) * 16 + (
        l0 >> 48)) by (bit_vector)
            requires
                l0 <= 0xFFFFFFFFFFFFFu64,
        ;
        assert(((l2 << 4) & 0xFFFFFFFFFFFFFu64) | (l1 >> 48) == (l2 & 0xFFFFFFFFFFFFu64) * 16 + (
        l1 >> 48)) by (bit_vector)
            requires
                l1 <= 0xFFFFFFFFFFFFFu64,
        ;
        assert(((l3 << 4) & 0xFFFFFFFFFFFFFu64) | (l2 >> 48) == (l3 & 0xFFFFFFFFFFFFu64) * 16 + (
        l2 >> 48)) by (bit_vector)
            requires
                l2 <= 0xFFFFFFFFFFFFFu64,
        ;
        assert(((l4 << 4) & 0xFFFFFFFFFFFFFu64) | (l3 >> 48) == l4 * 16 + (l3 >> 48))
            by (bit_vector)
            requires
                l3 <= 0xFFFFFFFFFFFFFu64,
                l4 < 0x1000000000000u64,
        ;
        assert((l0 << 4) & 0xFFFFFFFFFFFFFu64 <= 0xFFFFFFFFFFFFFu64) by (bit_vector);
        assert(((l1 << 4) & 0xFFFFFFFFFFFFFu64) | (l0 >> 48) <= 0xFFFFFFFFFFFFFu64) by (bit_vector)
            requires
                l0 <= 0xFFFFFFFFFFFFFu64,
        ;
        assert(((l2 << 4) & 0xFFFFFFFFFFFFFu64) | (l1 >> 48) <= 0xFFFFFFFFFFFFFu64) by (bit_vector)
            requires
                l1 <= 0xFFFFFFFFFFFFFu64,
        ;
        assert(((l3 << 4) & 0xFFFFFFFFFFFFFu64) | (l2 >> 48) <= 0xFFFFFFFFFFFFFu64) by (bit_vector)
            requires
                l2 <= 0xFFFFFFFFFFFFFu64,
        ;
        assert(((l4 << 4) & 0xFFFFFFFFFFFFFu64) | (l3 >> 48) <= 0xFFFFFFFFFFFFFu64) by (bit_vector)
            requires
                l3 <= 0xFFFFFFFFFFFFFu64,
                l4 < 0x1000000000000u64,
        ;
    }
    r
}

/// `r` is the Montgomery product of `x` and `y` modulo `p` for the radix
/// `R = 2^256`: the unique `r` in `[0, p)` with `r * 2^256 ≡ x * y (mod p)`.
pub open spec fn is_mont_product(r: int, x: int, y: int, p: int) -> bool {
    &&& 0 <= r < p
    &&& (r * two_pow_256()) % p == (x * y) % p
}

/// From `t * 2^260 == 16 a * b + mm * p`: `t * 2^256 ≡ a * b (mod p)`.
proof fn lemma_redc_congruence(t: int, a: int, b: int, p: int, mm: int)
    requires
        p > 0,
        p % 2 == 1,
        t * two_pow_260() == (16 * a) * b + mm * p,
    ensures
        (t * two_pow_256()) % p == (a * b) % p,
{
    lemma_two_pow_256();
    assert(t * two_pow_260() == (t * two_pow_256()) * 16) by (nonlinear_arith);
    assert((16 * a) * b == (a * b) * 16) by (nonlinear_arith);
    lemma_mod_multiples_vanish(mm, (a * b) * 16, p);
    assert(p * mm == mm * p) by (nonlinear_arith);
    lemma_cancel_pow2(t * two_pow_256(), a * b, p, 4);
}

/// Subtracting multiples of `p` keeps the Montgomery class.
proof fn lemma_sub_multiple_keeps_class(r: int, t: int, p: int, k: int)
    requires
        p > 0,
        r == t - k * p,
    ensures
        (r * two_pow_256()) % p == (t * two_pow_256()) % p,
{
    assert(r * two_pow_256() == p * (-(k * two_pow_256())) + t * two_pow_256())
        by (nonlinear_arith)
        requires
            r == t - k * p,
    ;
    lemma_mod_multiples_vanish(-(k * two_pow_256()), t * two_pow_256(), p);
}

/// With `a, b < p < 2^256` and `M < 2^260`, the CIOS result is below `2p`.
proof fn lemma_redc_bound(t: int, a: int, b: int, p: int, mm: int)
    requires
        0 < p < two_pow_256(),
        0 <= a < p,
        0 <= b < p,
        0 <= mm < two_pow_260(),
        t * two_pow_260() == (16 * a) * b + mm * p,
    ensures
        t < 2 * p,
{
    assert(a * b <= p * p) by (nonlinear_arith)
        requires
            0 <= a < p,
            0 <= b < p,
    ;
    assert(mm * p < two_pow_260() * p) by (nonlinear_arith)
        requires
            0 <= mm < two_pow_260(),
            p > 0,
    ;
    assert(16 * (p * p) <= two_pow_260() * p) by (nonlinear_arith)
        requires
            0 < p < two_pow_256(),
    ;
    assert((16 * a) * b == 16 * (a * b)) by (nonlinear_arith);
    assert(t < 2 * p) by (nonlinear_arith)
        requires
            t * two_pow_260() < 2 * (two_pow_260() * p),
    ;
}

/// Montgomery multiplication of one operand pair in radix `2^52`:
/// `r = a * b / 2^256 mod p`, fully reduced.
///
/// The first operand is scaled by 16 so that five 52-bit CIOS rounds (which
/// divide by `2^260`) yield the product for the radix `2^256` of the 4×64-bit
/// representation. The accumulator is then normalized to 52-bit limbs,
/// converted back to 64-bit limbs, and `p` is subtracted once if needed.
pub fn mont_mul_52(
    a_52: &[u64; 5],
    b_52: &[u64; 5],
    modulus: &[u64; 4],
    modulus_52: &[u64; 5],
    inv_52: u64,
) -> (r: [u64; 4])
    requires
        normalized52(*a_52),
        normalized52(*b_52),
        normalized52(*modulus_52),
        value64(*modulus) % 2 == 1,
        value52(*modulus_52) == value64(*modulus),
        is_neg_inv_52(modulus_52[0] as int, inv_52 as int),
        value52(*a_52) < value64(*modulus),
        value52(*b_52) < value64(*modulus),
    ensures
        is_mont_product(value64(r), value52(*a_52), value52(*b_52), value64(*modulus)),
{
    let ghost p = value64(*modulus);
    let ghost a = value52(*a_52);
    let ghost b = value52(*b_52);
    proof {
        lemma_value64_bound(*modulus);
    }
    let a16 = mul_by_16(a_52);
    let t = cios(&a16, b_52, modulus_52, inv_52);
    let ghost tv = value52_6(t);
    let ghost mm = choose|mm: int| #[trigger] redc_relation(tv, 16 * a, b, p, mm);
    proof {
        assert(redc_relation(tv, 16 * a, b, p, mm));
        lemma_redc_bound(tv, a, b, p, mm);
        lemma_redc_congruence(tv, a, b, p, mm);
    }
    let mut t_52 = [t[0], t[1], t[2], t[3], t[4]];
    assert(value52(t_52) == tv);
    let carry = normalize_limbs(&mut t_52);
    assert(carry == 0);
    let mut result_64 = [0u64; 4];
    from_52bit_limbs(&t_52, &mut result_64);
    let overflow = t_52[4] >> 48;
    proof {
        lemma_value52_split_256(t_52);
        lemma_value64_bound(result_64);
        assert(tv == value64(result_64) + overflow as int * two_pow_256());
        assert(overflow <= 1);
    }
    let needs_sub = overflow != 0 || geq_256(&result_64, modulus);
    if needs_sub {
        let ghost before = value64(result_64);
        let borrow = sub_256(&mut result_64, modulus);
        proof {
            lemma_value64_bound(result_64);
            assert(tv >= p);
            assert(borrow == overflow);
            assert(value64(result_64) == tv - p);
            lemma_sub_multiple_keeps_class(value64(result_64), tv, p, 1);
        }
    } else {
        proof {
            assert(value64(result_64) == tv);
            lemma_sub_multiple_keeps_class(value64(result_64), tv, p, 0);
        }
    }
    result_64
}

} // verus!
