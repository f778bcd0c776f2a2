//! Laws of Montgomery multiplication that the batch operations inherit from
//! their contracts, and the round trip of the limb conversions.
use crate::limbs::{normalized52, two_pow_256, value52, value64};
use crate::modular::{lemma_cancel_pow2, lemma_two_pow_256};
use crate::montgomery::is_mont_product;
use vstd::arithmetic::div_mod::{
    lemma_fundamental_div_mod_converse, lemma_mul_mod_noop_left, lemma_mul_mod_noop_right,
    lemma_small_mod,
};
use vstd::prelude::*;

verus! {

/// The Montgomery product is unique: two results for the same operands are
/// equal.
pub proof fn lemma_mont_product_unique(r1: int, r2: int, x: int, y: int, p: int)
    requires
        p > 0,
        p % 2 == 1,
        is_mont_product(r1, x, y, p),
        is_mont_product(r2, x, y, p),
    ensures
        r1 == r2,
{
    lemma_two_pow_256();
    lemma_cancel_pow2(r1, r2, p, 256);
    lemma_small_mod(r1 as nat, p as nat);
    lemma_small_mod(r2 as nat, p as nat);
}

/// Multiplication is commutative: `a * b` and `b * a` give the same element.
pub proof fn lemma_mont_mul_commutative(ab: int, ba: int, x: int, y: int, p: int)
    requires
        p > 0,
        p % 2 == 1,
        is_mont_product(ab, x, y, p),
        is_mont_product(ba, y, x, p),
    ensures
        ab == ba,
{
    assert(x * y == y * x) by (nonlinear_arith);
    lemma_mont_product_unique(ab, ba, x, y, p);
}

/// Multiplying both sides of `r * R ≡ s * u (mod p)` by `R = 2^256`.
proof fn lemma_times_r(r: int, s: int, u: int, p: int)
    requires
        p > 0,
        (r * two_pow_256()) % p == (s * u) % p,
    ensures
        ((r * two_pow_256()) * two_pow_256()) % p == ((s * two_pow_256()) * u) % p,
{
    let rr = two_pow_256();
    lemma_mul_mod_noop_left(r * rr, rr, p);
    lemma_mul_mod_noop_left(s * u, rr, p);
    assert((s * u) * rr == (s * rr) * u) by (nonlinear_arith);
}

/// Multiplication is associative: `(a * b) * c` and `a * (b * c)` give the
/// same element.
pub proof fn lemma_mont_mul_associative(
    x: int,
    y: int,
    z: int,
    xy: int,
    xy_z: int,
    yz: int,
    x_yz: int,
    p: int,
)
    requires
        p > 0,
        p % 2 == 1,
        is_mont_product(xy, x, y, p),
        is_mont_product(xy_z, xy, z, p),
        is_mont_product(yz, y, z, p),
        is_mont_product(x_yz, x, yz, p),
    ensures
        xy_z == x_yz,
{
    let rr = two_pow_256();
    // ((a*b)*c) * R * R ≡ (a*b*R) * c ≡ (a*b) * c
    lemma_times_r(xy_z, xy, z, p);
    lemma_mul_mod_noop_left(xy * rr, z, p);
    lemma_mul_mod_noop_left(x * y, z, p);
    // (a*(b*c)) * R * R ≡ a * (b*c*R) ≡ a * (b*c)
    assert((x_yz * rr) % p == (yz * x) % p) by {
        assert(x * yz == yz * x) by (nonlinear_arith);
    }
    lemma_times_r(x_yz, yz, x, p);
    lemma_mul_mod_noop_left(yz * rr, x, p);
    lemma_mul_mod_noop_left(y * z, x, p);
    assert((x * y) * z == (y * z) * x) by (nonlinear_arith);
    assert(((xy_z * rr) * rr) % p == ((x_yz * rr) * rr) % p);
    lemma_two_pow_256();
    lemma_cancel_pow2(xy_z * rr, x_yz * rr, p, 256);
    lemma_cancel_pow2(xy_z, x_yz, p, 256);
    lemma_small_mod(xy_z as nat, p as nat);
    lemma_small_mod(x_yz as nat, p as nat);
}

/// Multiplying by zero gives zero.
pub proof fn lemma_mont_mul_by_zero(r: int, x: int, p: int)
    requires
        p > 0,
        p % 2 == 1,
        is_mont_product(r, x, 0, p),
    ensures
        r == 0,
{
    assert(x * 0 == 0);
    assert(0 * two_pow_256() == 0);
    assert(is_mont_product(0, x, 0, p));
    lemma_mont_product_unique(r, 0, x, 0, p);
}

/// The Montgomery form of the field element one: `2^256 mod p`.
pub open spec fn mont_one(p: int) -> int {
    two_pow_256() % p
}

/// Multiplying an element by one gives the element back.
pub proof fn lemma_mont_mul_by_one(r: int, x: int, p: int)
    requires
        p > 0,
        p % 2 == 1,
        0 <= x < p,
        is_mont_product(r, x, mont_one(p), p),
    ensures
        r == x,
{
    let rr = two_pow_256();
    lemma_mul_mod_noop_right(x, rr, p);
    assert(is_mont_product(x, x, mont_one(p), p));
    lemma_mont_product_unique(r, x, x, mont_one(p), p);
}

/// The product of the Montgomery forms of field elements `u` and `v` is the
/// Montgomery form of `u * v`: the batch multiplication multiplies in the
/// field.
pub proof fn lemma_mont_product_is_field_product(r: int, u: int, v: int, p: int)
    requires
        p > 0,
        p % 2 == 1,
        is_mont_product(r, (u * two_pow_256()) % p, (v * two_pow_256()) % p, p),
    ensures
        r == ((u * v) * two_pow_256()) % p,
{
    let rr = two_pow_256();
    let c = ((u * v) * rr) % p;
    lemma_mul_mod_noop_left((u * v) * rr, rr, p);
    lemma_mul_mod_noop_left(u * rr, (v * rr) % p, p);
    lemma_mul_mod_noop_right(u * rr, v * rr, p);
    assert(((u * v) * rr) * rr == (u * rr) * (v * rr)) by (nonlinear_arith);
    assert(0 <= c < p);
    assert(is_mont_product(c, (u * rr) % p, (v * rr) % p, p));
    lemma_mont_product_unique(r, c, (u * rr) % p, (v * rr) % p, p);
}

/// Four 64-bit limbs are determined by the value they denote.
pub proof fn lemma_value64_injective(x: [u64; 4], y: [u64; 4])
    requires
        value64(x) == value64(y),
    ensures
        x == y,
{
    let b = 0x10000000000000000int;
    let hx = x[1] as int + x[2] as int * b + x[3] as int * (b * b);
    let hy = y[1] as int + y[2] as int * b + y[3] as int * (b * b);
    lemma_fundamental_div_mod_converse(value64(x), b, hx, x[0] as int);
    lemma_fundamental_div_mod_converse(value64(y), b, hy, y[0] as int);
    let gx = x[2] as int + x[3] as int * b;
    let gy = y[2] as int + y[3] as int * b;
    lemma_fundamental_div_mod_converse(hx, b, gx, x[1] as int);
    lemma_fundamental_div_mod_converse(hy, b, gy, y[1] as int);
    lemma_fundamental_div_mod_converse(gx, b, x[3] as int, x[2] as int);
    lemma_fundamental_div_mod_converse(gy, b, y[3] as int, y[2] as int);
    assert(x[0] == y[0] && x[1] == y[1] && x[2] == y[2] && x[3] == y[3]);
    assert(x =~= y);
}

/// Converting 4×64-bit limbs to 5×52-bit limbs and back returns the same
/// limbs.
pub proof fn lemma_limbs_round_trip(x: [u64; 4], l52: [u64; 5], y: [u64; 4])
    requires
        normalized52(l52),
        value52(l52) == value64(x),
        value64(y) == value52(l52) % two_pow_256(),
    ensures
        y == x,
{
    lemma_small_mod(value64(x) as nat, two_pow_256() as nat);
    lemma_value64_injective(x, y);
}

} // verus!
