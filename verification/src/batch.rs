//! Field elements in Montgomery form and the batch operations on eight of
//! them at a time.
use crate::inverse::{compute_inv_52, is_neg_inv_52};
use crate::limbs::{normalized52, to_52bit_limbs, value52, value64, LIMBS_52};
use crate::montgomery::{is_mont_product, mont_mul_52};
use vstd::prelude::*;

verus! {

/// Batch size for the batch operations (eight 64-bit lanes of a 512-bit vector).
pub const BATCH_SIZE: usize = 8;

/// A 256-bit unsigned integer in four little-endian 64-bit limbs.
#[derive(Clone, Copy, Debug, PartialEq, Eq)]
pub struct BigInt(pub [u64; 4]);

impl View for BigInt {
    type V = int;

    open spec fn view(&self) -> int {
        value64(self.0)
    }
}

/// An element of a prime field stored in Montgomery form: the limbs hold
/// `x * 2^256 mod p` for the field element `x`.
#[derive(Clone, Copy, Debug, PartialEq, Eq)]
pub struct Fp(pub BigInt);

impl View for Fp {
    type V = int;

    open spec fn view(&self) -> int {
        self.0@
    }
}

impl Fp {
    /// Wrap a representation that is already in Montgomery form.
    pub fn new_unchecked(element: BigInt) -> (r: Fp)
        ensures
            r == Fp(element),
    {
        Fp(element)
    }
}

/// The parameters of a Montgomery field over four 64-bit limbs.
#[derive(Clone, Copy, Debug)]
pub struct MontConfig {
    /// The field modulus `p`.
    pub modulus: BigInt,
}

impl MontConfig {
    /// The modulus is odd, so `2^52` and `2^256` are invertible modulo it.
    pub open spec fn wf(&self) -> bool {
        self.modulus@ % 2 == 1
    }

    /// `x` is the representation of a field element: it is below `p`.
    pub open spec fn is_element(&self, x: Fp) -> bool {
        x@ < self.modulus@
    }
}

proof fn lemma_low_limb_parity(l: [u64; 5])
    ensures
        value52(l) % 2 == l[0] % 2,
{
    let k = l[1] as int * 0x8000000000000 + l[2] as int * 0x80000000000000000000000000int
        + l[3] as int * 0x800000000000000000000000000000000000000int + l[4] as int
        * 0x8000000000000000000000000000000000000000000000000000int;
    assert(value52(l) == l[0] as int + 2 * k);
}

/// Performs batch Montgomery multiplication of 8 field elements:
/// `result[i] = a[i] * b[i]` in the field, all operands and results in
/// Montgomery form.
///
/// The operands are converted to 5×52-bit limbs, multiplied with the CIOS
/// algorithm in radix `2^52`, and converted back to 4×64-bit limbs.
pub fn mont_mul_batch_8(
    cfg: &MontConfig,
    a: &[Fp; BATCH_SIZE],
    b: &[Fp; BATCH_SIZE],
    result: &mut [Fp; BATCH_SIZE],
)
    requires
        cfg.wf(),
        forall|i: int| 0 <= i < 8 ==> cfg.is_element(#[trigger] a[i]),
        forall|i: int| 0 <= i < 8 ==> cfg.is_element(#[trigger] b[i]),
    ensures
        forall|i: int|
            0 <= i < 8 ==> is_mont_product(
                #[trigger] final(result)[i]@,
                a[i]@,
                b[i]@,
                cfg.modulus@,
            ),
{
    // Convert inputs to the 52-bit redundant representation.
    let mut a_52 = [[0u64; LIMBS_52]; BATCH_SIZE];
    let mut b_52 = [[0u64; LIMBS_52]; BATCH_SIZE];
    for i in 0..BATCH_SIZE
        invariant
            forall|k: int|
                0 <= k < i ==> value52(#[trigger] a_52[k]) == a[k]@
                    && normalized52(a_52[k]),
            forall|k: int|
                0 <= k < i ==> value52(#[trigger] b_52[k]) == b[k]@
                    && normalized52(b_52[k]),
    {
        let mut limbs = [0u64; LIMBS_52];
        to_52bit_limbs(&a[i].0.0, &mut limbs);
        a_52[i] = limbs;
        let mut limbs = [0u64; LIMBS_52];
        to_52bit_limbs(&b[i].0.0, &mut limbs);
        b_52[i] = limbs;
    }

    // Convert the modulus and compute the Montgomery constant -p^{-1} mod 2^52.
    let mut modulus_52 = [0u64; LIMBS_52];
    to_52bit_limbs(&cfg.modulus.0, &mut modulus_52);
    proof {
        lemma_low_limb_parity(modulus_52);
    }
    let inv_52 = compute_inv_52(modulus_52[0]);

    for i in 0..BATCH_SIZE
        invariant
            cfg.wf(),
            value52(modulus_52) == cfg.modulus@,
            normalized52(modulus_52),
            is_neg_inv_52(modulus_52[0] as int, inv_52 as int),
            forall|k: int| 0 <= k < 8 ==> cfg.is_element(#[trigger] a[k]),
            forall|k: int| 0 <= k < 8 ==> cfg.is_element(#[trigger] b[k]),
            forall|k: int|
                0 <= k < 8 ==> value52(#[trigger] a_52[k]) == a[k]@
                    && normalized52(a_52[k]),
            forall|k: int|
                0 <= k < 8 ==> value52(#[trigger] b_52[k]) == b[k]@
                    && normalized52(b_52[k]),
            forall|k: int|
                0 <= k < i ==> is_mont_product(
                    #[trigger] result[k]@,
                    a[k]@,
                    b[k]@,
                    cfg.modulus@,
                ),
    {
        assert(value52(a_52[i as int]) == a[i as int]@);
        assert(value52(b_52[i as int]) == b[i as int]@);
        let r = mont_mul_52(&a_52[i], &b_52[i], &cfg.modulus.0, &modulus_52, inv_52);
        result[i] = Fp::new_unchecked(BigInt(r));
    }
}

/// Performs batch Montgomery squaring of 8 field elements:
/// `result[i] = a[i] * a[i]` in the field.
pub fn mont_square_batch_8(cfg: &MontConfig, a: &[Fp; BATCH_SIZE], result: &mut [Fp; BATCH_SIZE])
    requires
        cfg.wf(),
        forall|i: int| 0 <= i < 8 ==> cfg.is_element(#[trigger] a[i]),
    ensures
        forall|i: int|
            0 <= i < 8 ==> is_mont_product(
                #[trigger] final(result)[i]@,
                a[i]@,
                a[i]@,
                cfg.modulus@,
            ),
{
    mont_mul_batch_8(cfg, a, a, result);
}

} // verus!
