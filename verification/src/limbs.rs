//! Conversions between the 4×64-bit and the 5×52-bit limb representations
//! of a 256-bit unsigned integer.
use vstd::arithmetic::div_mod::lemma_fundamental_div_mod_converse;
use vstd::prelude::*;

verus! {

/// Number of 52-bit limbs needed to represent 256-bit numbers.
pub const LIMBS_52: usize = 5;

/// 52-bit mask for extracting limbs: `2^52 - 1`.
pub const MASK_52: u64 = 0xFFFFFFFFFFFFF;

/// `2^52`, the radix of the redundant representation.
#[verifier::inline]
pub open spec fn radix() -> int {
    0x10000000000000
}

/// `2^256`.
#[verifier::inline]
pub open spec fn two_pow_256() -> int {
    0x10000000000000000000000000000000000000000000000000000000000000000int
}

/// The integer denoted by four little-endian 64-bit limbs.
pub open spec fn value64(l: [u64; 4]) -> int {
    l[0] as int + l[1] as int * 0x10000000000000000int + l[2] as int
        * 0x100000000000000000000000000000000int + l[3] as int
        * 0x1000000000000000000000000000000000000000000000000int
}

/// The integer denoted by five little-endian limbs in radix `2^52`
/// (limbs may exceed 52 bits: the representation is redundant).
pub open spec fn value52(l: [u64; 5]) -> int {
    l[0] as int + l[1] as int * 0x10000000000000 + l[2] as int * 0x100000000000000000000000000int
        + l[3] as int * 0x1000000000000000000000000000000000000000int + l[4] as int
        * 0x10000000000000000000000000000000000000000000000000000int
}

/// Every limb fits in 52 bits.
pub open spec fn normalized52(l: [u64; 5]) -> bool {
    forall|j: int| 0 <= j < 5 ==> l[j] <= MASK_52
}

/// Convert 4×64-bit limbs to 5×52-bit limbs.
pub fn to_52bit_limbs(limbs_64: &[u64; 4], limbs_52: &mut [u64; LIMBS_52])
    ensures
        normalized52(*final(limbs_52)),
        value52(*final(limbs_52)) == value64(*limbs_64),
        final(limbs_52)[4] < 0x1000000000000,
{
    assert(1u128 << 52 == 0x10000000000000u128) by (bit_vector);
    let mask: u128 = (1u128 << 52) - 1;
    assert(mask == 0xFFFFFFFFFFFFFu128) by (bit_vector)
        requires
            mask == (1u128 << 52) - 1,
    ;
    let as_128_low = limbs_64[0] as u128 | ((limbs_64[1] as u128) << 64);
    let as_128_high = limbs_64[2] as u128 | ((limbs_64[3] as u128) << 64);

    limbs_52[0] = (as_128_low & mask) as u64;
    limbs_52[1] = ((as_128_low >> 52) & mask) as u64;
    // Bits 104..155: the top 24 bits of the low half and the low 28 bits of the high half.
    limbs_52[2] = (((as_128_low >> 104) | (as_128_high << 24)) & mask) as u64;
    limbs_52[3] = ((as_128_high >> 28) & mask) as u64;
    limbs_52[4] = ((as_128_high >> 80) & mask) as u64;
    proof {
        let l0 = limbs_64[0];
        let l1 = limbs_64[1];
        let l2 = limbs_64[2];
        let l3 = limbs_64[3];
        let lo = as_128_low;
        let hi = as_128_high;
        assert(lo == l0 as u128 + (l1 as u128) * 0x10000000000000000u128) by (bit_vector)
            requires
                lo == l0 as u128 | ((l1 as u128) << 64),
        ;
        assert(hi == l2 as u128 + (l3 as u128) * 0x10000000000000000u128) by (bit_vector)
            requires
                hi == l2 as u128 | ((l3 as u128) << 64),
        ;
        let o0 = (lo & 0xFFFFFFFFFFFFFu128) as u64;
        let o1 = ((lo >> 52) & 0xFFFFFFFFFFFFFu128) as u64;
        let o2 = (((lo >> 104) | (hi << 24)) & 0xFFFFFFFFFFFFFu128) as u64;
        let o3 = ((hi >> 28) & 0xFFFFFFFFFFFFFu128) as u64;
        let o4 = ((hi >> 80) & 0xFFFFFFFFFFFFFu128) as u64;
        assert(o0 as int + o1 as int * 0x10000000000000 + (lo >> 104) as int
            * 0x100000000000000000000000000int == lo as int) by (bit_vector)
            requires
                o0 == (lo & 0xFFFFFFFFFFFFFu128) as u64,
                o1 == ((lo >> 52) & 0xFFFFFFFFFFFFFu128) as u64,
        ;
        assert(o2 as int == (lo >> 104) as int + (hi & 0xFFFFFFF) as int * 0x1000000)
            by (bit_vector)
            requires
                o2 == (((lo >> 104) | (hi << 24)) & 0xFFFFFFFFFFFFFu128) as u64,
        ;
        assert(hi as int == (hi & 0xFFFFFFF) as int + (hi >> 28) as int * 0x10000000)
            by (bit_vector);
        assert((hi >> 28) as int == o3 as int + (hi >> 80) as int * 0x10000000000000)
            by (bit_vector)
            requires
                o3 == ((hi >> 28) & 0xFFFFFFFFFFFFFu128) as u64,
        ;
        assert(o4 as int == (hi >> 80) as int) by (bit_vector)
            requires
                o4 == ((hi >> 80) & 0xFFFFFFFFFFFFFu128) as u64,
        ;
        assert(o0 <= MASK_52 && o1 <= MASK_52 && o2 <= MASK_52 && o3 <= MASK_52 && o4
            < 0x1000000000000) by (bit_vector)
            requires
                o0 == (lo & 0xFFFFFFFFFFFFFu128) as u64,
                o1 == ((lo >> 52) & 0xFFFFFFFFFFFFFu128) as u64,
                o2 == (((lo >> 104) | (hi << 24)) & 0xFFFFFFFFFFFFFu128) as u64,
                o3 == ((hi >> 28) & 0xFFFFFFFFFFFFFu128) as u64,
                o4 == ((hi >> 80) & 0xFFFFFFFFFFFFFu128) as u64,
        ;
        assert(limbs_52[0] == o0 && limbs_52[1] == o1 && limbs_52[2] == o2 && limbs_52[3] == o3
            && limbs_52[4] == o4);
        assert(value52(*limbs_52) == lo as int + hi as int
            * 0x100000000000000000000000000000000int);
    }
}

/// Convert 5×52-bit limbs back to 4×64-bit limbs. The value is taken modulo
/// `2^256`: bits 256..259 of the top limb do not fit in four 64-bit limbs.
pub fn from_52bit_limbs(limbs_52: &[u64; LIMBS_52], limbs_64: &mut [u64; 4])
    requires
        normalized52(*limbs_52),
    ensures
        value64(*final(limbs_64)) == value52(*limbs_52) % two_pow_256(),
{
    let low_bits = (limbs_52[0] as u128) | ((limbs_52[1] as u128) << 52) | ((limbs_52[2] as u128)
        << 104);
    let high_bits = ((limbs_52[2] as u128) >> 24)  // Remaining 28 bits of limb 2
     | ((limbs_52[3] as u128) << 28) | ((limbs_52[4] as u128) << 80);

    limbs_64[0] = low_bits as u64;
    limbs_64[1] = (low_bits >> 64) as u64;
    limbs_64[2] = high_bits as u64;
    limbs_64[3] = (high_bits >> 64) as u64;
    proof {
        let l0 = limbs_52[0];
        let l1 = limbs_52[1];
        let l2 = limbs_52[2];
        let l3 = limbs_52[3];
        let l4 = limbs_52[4];
        let lo = low_bits;
        let hi = high_bits;
        assert(lo as int == l0 as int + l1 as int * 0x10000000000000 + (l2 & 0xFFFFFF) as int
            * 0x100000000000000000000000000int) by (bit_vector)
            requires
                l0 <= 0xFFFFFFFFFFFFFu64,
                l1 <= 0xFFFFFFFFFFFFFu64,
                lo == (l0 as u128) | ((l1 as u128) << 52) | ((l2 as u128) << 104),
        ;
        assert(hi as int == (l2 >> 24) as int + l3 as int * 0x10000000 + (l4 & 0xFFFFFFFFFFFF) as int
            * 0x100000000000000000000int) by (bit_vector)
            requires
                l2 <= 0xFFFFFFFFFFFFFu64,
                l3 <= 0xFFFFFFFFFFFFFu64,
                hi == ((l2 as u128) >> 24) | ((l3 as u128) << 28) | ((l4 as u128) << 80),
        ;
        assert(l2 as int == (l2 & 0xFFFFFF) as int + (l2 >> 24) as int * 0x1000000) by (bit_vector);
        assert(l4 as int == (l4 & 0xFFFFFFFFFFFF) as int + (l4 >> 48) as int * 0x1000000000000)
            by (bit_vector);
        assert(lo as int == (lo as u64) as int + ((lo >> 64) as u64) as int * 0x10000000000000000int)
            by (bit_vector);
        assert(hi as int == (hi as u64) as int + ((hi >> 64) as u64) as int * 0x10000000000000000int)
            by (bit_vector);
        let v = value52(*limbs_52);
        let r = value64(*limbs_64);
        assert(r == lo as int + hi as int * 0x100000000000000000000000000000000int);
        assert(v == r + (l4 >> 48) as int * two_pow_256());
        assert(hi as int <= 0xFFFFFFFFFFFFFFFFFFFFFFFFFFFFFFFFu128) by (bit_vector);
        assert(lo as int <= 0xFFFFFFFFFFFFFFFFFFFFFFFFFFFFFFFFu128) by (bit_vector);
        lemma_fundamental_div_mod_converse(v, two_pow_256(), (l4 >> 48) as int, r);
    }
}

/// A normalized radix-`2^52` value splits at bit 256 into its low 256 bits
/// and the bits of the top limb above bit 48.
pub proof fn lemma_value52_split_256(l: [u64; 5])
    requires
        normalized52(l),
    ensures
        value52(l) == value52(l) % two_pow_256() + (l[4] >> 48) as int * two_pow_256(),
        value52(l) % two_pow_256() < two_pow_256(),
        (l[4] >> 48) <= 0xF,
{
    let l4 = l[4];
    assert(l4 as int == (l4 & 0xFFFFFFFFFFFF) as int + (l4 >> 48) as int * 0x1000000000000)
        by (bit_vector);
    assert((l4 >> 48) <= 0xF) by (bit_vector)
        requires
            l4 <= 0xFFFFFFFFFFFFFu64,
    ;
    assert((l4 & 0xFFFFFFFFFFFF) <= 0xFFFFFFFFFFFFu64) by (bit_vector);
    let low = value52(l) - (l4 >> 48) as int * two_pow_256();
    assert(0 <= low < two_pow_256());
    lemma_fundamental_div_mod_converse(value52(l), two_pow_256(), (l4 >> 48) as int, low);
}

/// Four 64-bit limbs denote a value below `2^256`.
pub proof fn lemma_value64_bound(l: [u64; 4])
    ensures
        0 <= value64(l) < two_pow_256(),
{
}

} // verus!
