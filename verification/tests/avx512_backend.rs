use ark_ff::reduce::{geq_256, overflowing_sub, sub_256};
use ark_ff::{
    compute_inv_52, from_52bit_limbs, mont_mul_52, mont_mul_batch_8, mont_square_batch_8,
    to_52bit_limbs, BigInt, Fp, MontConfig, BATCH_SIZE, LIMBS_52, MASK_52,
};

/// The base field modulus of secp256k1: 2^256 - 2^32 - 977.
const SECP256K1_P: [u64; 4] = [
    0xFFFF_FFFE_FFFF_FC2F,
    0xFFFF_FFFF_FFFF_FFFF,
    0xFFFF_FFFF_FFFF_FFFF,
    0xFFFF_FFFF_FFFF_FFFF,
];

/// The base field modulus of BN254.
const BN254_P: [u64; 4] = [
    0x3C20_8C16_D87C_FD47,
    0x9781_6A91_6871_CA8D,
    0xB850_45B6_8181_585D,
    0x3064_4E72_E131_A029,
];

fn config(p: [u64; 4]) -> MontConfig {
    MontConfig { modulus: BigInt(p) }
}

/// A small deterministic generator (xorshift64*).
struct TestRng(u64);

impl TestRng {
    fn next_u64(&mut self) -> u64 {
        let mut x = self.0;
        x ^= x >> 12;
        x ^= x << 25;
        x ^= x >> 27;
        self.0 = x;
        x.wrapping_mul(0x2545_F491_4F6C_DD1D)
    }

    /// A uniformly random representation below `p`.
    fn element(&mut self, p: &[u64; 4]) -> Fp {
        loop {
            let mut limbs = [
                self.next_u64(),
                self.next_u64(),
                self.next_u64(),
                self.next_u64(),
            ];
            let top_bits = 64 - p[3].leading_zeros();
            if top_bits < 64 {
                limbs[3] &= (1u64 << top_bits) - 1;
            }
            if less_than(&limbs, p) {
                return Fp(BigInt(limbs));
            }
        }
    }
}

fn test_rng() -> TestRng {
    TestRng(0x9E37_79B9_7F4A_7C15)
}

fn less_than(x: &[u64; 4], y: &[u64; 4]) -> bool {
    for j in (0..4).rev() {
        if x[j] != y[j] {
            return x[j] < y[j];
        }
    }
    false
}

/// Textbook Montgomery multiplication in radix 2^64 (CIOS), used as an
/// independent reference: returns `a * b * 2^-256 mod p`.
fn reference_mont_mul(a: &[u64; 4], b: &[u64; 4], p: &[u64; 4]) -> [u64; 4] {
    // -p^-1 mod 2^64 by Newton iteration.
    let mut inv: u64 = 1;
    for _ in 0..7 {
        inv = inv.wrapping_mul(2u64.wrapping_sub(p[0].wrapping_mul(inv)));
    }
    let n_prime = inv.wrapping_neg();

    let mut t = [0u64; 6];
    for i in 0..4 {
        let mut carry: u128 = 0;
        for j in 0..4 {
            let s = t[j] as u128 + (a[j] as u128) * (b[i] as u128) + carry;
            t[j] = s as u64;
            carry = s >> 64;
        }
        let s = t[4] as u128 + carry;
        t[4] = s as u64;
        t[5] = (s >> 64) as u64;

        let m = t[0].wrapping_mul(n_prime);
        let s = t[0] as u128 + (m as u128) * (p[0] as u128);
        let mut carry = s >> 64;
        for j in 1..4 {
            let s = t[j] as u128 + (m as u128) * (p[j] as u128) + carry;
            t[j - 1] = s as u64;
            carry = s >> 64;
        }
        let s = t[4] as u128 + carry;
        t[3] = s as u64;
        t[4] = t[5] + (s >> 64) as u64;
        t[5] = 0;
    }
    let mut r = [t[0], t[1], t[2], t[3]];
    if t[4] != 0 || !less_than(&r, p) {
        let mut borrow = 0u64;
        for j in 0..4 {
            let (d, b1) = r[j].overflowing_sub(p[j]);
            let (d, b2) = d.overflowing_sub(borrow);
            r[j] = d;
            borrow = (b1 || b2) as u64;
        }
    }
    r
}

/// 2^k mod p, by repeated modular doubling.
fn pow2_mod(k: usize, p: &[u64; 4]) -> [u64; 4] {
    let mut r = [1u64, 0, 0, 0];
    for _ in 0..k {
        r = double_mod(&r, p);
    }
    r
}

/// The Montgomery form of one: 2^256 mod p.
fn mont_one(p: &[u64; 4]) -> Fp {
    Fp(BigInt(pow2_mod(256, p)))
}

fn double_mod(x: &[u64; 4], p: &[u64; 4]) -> [u64; 4] {
    let mut r = [0u64; 4];
    let mut carry = 0u64;
    for j in 0..4 {
        r[j] = (x[j] << 1) | carry;
        carry = x[j] >> 63;
    }
    if carry != 0 || !less_than(&r, p) {
        let mut borrow = 0u64;
        for j in 0..4 {
            let (d, b1) = r[j].overflowing_sub(p[j]);
            let (d, b2) = d.overflowing_sub(borrow);
            r[j] = d;
            borrow = (b1 || b2) as u64;
        }
    }
    r
}

fn zero() -> Fp {
    Fp(BigInt([0; 4]))
}

fn mul_8(cfg: &MontConfig, a: &[Fp; BATCH_SIZE], b: &[Fp; BATCH_SIZE]) -> [Fp; BATCH_SIZE] {
    let mut result = [zero(); BATCH_SIZE];
    mont_mul_batch_8(cfg, a, b, &mut result);
    result
}

#[test]
fn test_52bit_conversion() {
    // Test conversion between 64-bit and 52-bit representations
    let mut rng = test_rng();

    for _ in 0..100 {
        let val = rng.element(&SECP256K1_P);
        let limbs_64 = &(val.0).0;

        // Convert to 52-bit representation
        let mut limbs_52 = [0u64; LIMBS_52];
        to_52bit_limbs(limbs_64, &mut limbs_52);

        // Convert back to 64-bit representation
        let mut limbs_64_back = [0u64; 4];
        from_52bit_limbs(&limbs_52, &mut limbs_64_back);

        // Verify roundtrip conversion preserves the value
        assert_eq!(
            limbs_64, &limbs_64_back,
            "Roundtrip conversion failed for value: {:?}",
            limbs_64
        );

        // Verify each 52-bit limb is within bounds
        for (i, &limb) in limbs_52.iter().enumerate() {
            assert!(
                limb <= MASK_52,
                "52-bit limb {} exceeds mask: {} > {}",
                i,
                limb,
                MASK_52
            );
        }
    }
}

#[test]
fn test_batch_mul_correctness() {
    // Test batch multiplication correctness against sequential operations
    let mut rng = test_rng();
    let cfg = config(SECP256K1_P);

    for _ in 0..10 {
        let mut a = [zero(); BATCH_SIZE];
        let mut b = [zero(); BATCH_SIZE];

        for i in 0..BATCH_SIZE {
            a[i] = rng.element(&SECP256K1_P);
            b[i] = rng.element(&SECP256K1_P);
        }

        // Compute expected results using sequential multiplication
        let mut expected = [zero(); BATCH_SIZE];
        for i in 0..BATCH_SIZE {
            expected[i] = Fp(BigInt(reference_mont_mul(&(a[i].0).0, &(b[i].0).0, &SECP256K1_P)));
        }

        // Compute batch results
        let mut result = [zero(); BATCH_SIZE];
        mont_mul_batch_8(&cfg, &a, &b, &mut result);

        // Verify results match
        for i in 0..BATCH_SIZE {
            assert_eq!(
                result[i], expected[i],
                "Batch multiplication mismatch at index {}: got {:?}, expected {:?}",
                i, result[i], expected[i]
            );
        }
    }
}

#[test]
fn test_batch_square_correctness() {
    // Test batch squaring correctness
    let mut rng = test_rng();
    let cfg = config(SECP256K1_P);

    for _ in 0..10 {
        let mut a = [zero(); BATCH_SIZE];

        for i in 0..BATCH_SIZE {
            a[i] = rng.element(&SECP256K1_P);
        }

        // Compute expected results using sequential squaring
        let mut expected = [zero(); BATCH_SIZE];
        for i in 0..BATCH_SIZE {
            expected[i] = Fp(BigInt(reference_mont_mul(&(a[i].0).0, &(a[i].0).0, &SECP256K1_P)));
        }

        // Compute batch results
        let mut result = [zero(); BATCH_SIZE];
        mont_square_batch_8(&cfg, &a, &mut result);

        // Verify results match
        for i in 0..BATCH_SIZE {
            assert_eq!(
                result[i], expected[i],
                "Batch squaring mismatch at index {}: got {:?}, expected {:?}",
                i, result[i], expected[i]
            );
        }
    }
}

#[test]
fn test_batch_mul_edge_cases() {
    // Test edge cases: multiplication by zero, one
    let mut rng = test_rng();
    let cfg = config(SECP256K1_P);
    let one = mont_one(&SECP256K1_P);

    // Test multiplication by zero
    {
        let mut a = [zero(); BATCH_SIZE];
        let mut b = [zero(); BATCH_SIZE];

        for i in 0..BATCH_SIZE {
            a[i] = rng.element(&SECP256K1_P);
            b[i] = zero();
        }

        let mut result = [zero(); BATCH_SIZE];
        mont_mul_batch_8(&cfg, &a, &b, &mut result);

        for i in 0..BATCH_SIZE {
            assert_eq!(result[i], zero(), "Multiplication by zero failed at index {}", i);
        }
    }

    // Test multiplication by one
    {
        let mut a = [zero(); BATCH_SIZE];
        let b = [one; BATCH_SIZE];

        for i in 0..BATCH_SIZE {
            a[i] = rng.element(&SECP256K1_P);
        }

        let mut result = [zero(); BATCH_SIZE];
        mont_mul_batch_8(&cfg, &a, &b, &mut result);

        for i in 0..BATCH_SIZE {
            assert_eq!(
                result[i], a[i],
                "Multiplication by one failed at index {}: got {:?}, expected {:?}",
                i, result[i], a[i]
            );
        }
    }

    // Test squaring zero
    {
        let a = [zero(); BATCH_SIZE];
        let mut result = [one; BATCH_SIZE];
        mont_square_batch_8(&cfg, &a, &mut result);

        for i in 0..BATCH_SIZE {
            assert_eq!(result[i], zero(), "Squaring zero failed at index {}", i);
        }
    }

    // Test squaring one
    {
        let a = [one; BATCH_SIZE];
        let mut result = [zero(); BATCH_SIZE];
        mont_square_batch_8(&cfg, &a, &mut result);

        for i in 0..BATCH_SIZE {
            assert_eq!(result[i], one, "Squaring one failed at index {}", i);
        }
    }
}

#[test]
fn test_batch_mul_identity() {
    // Test identity properties: (a * b) * c = a * (b * c)
    let mut rng = test_rng();
    let cfg = config(SECP256K1_P);

    for _ in 0..5 {
        let mut a = [zero(); BATCH_SIZE];
        let mut b = [zero(); BATCH_SIZE];
        let mut c = [zero(); BATCH_SIZE];

        for i in 0..BATCH_SIZE {
            a[i] = rng.element(&SECP256K1_P);
            b[i] = rng.element(&SECP256K1_P);
            c[i] = rng.element(&SECP256K1_P);
        }

        // Compute (a * b) * c
        let ab = mul_8(&cfg, &a, &b);
        let abc1 = mul_8(&cfg, &ab, &c);

        // Compute a * (b * c)
        let bc = mul_8(&cfg, &b, &c);
        let abc2 = mul_8(&cfg, &a, &bc);

        // Verify associativity
        for i in 0..BATCH_SIZE {
            assert_eq!(
                abc1[i], abc2[i],
                "Associativity failed at index {}: (a*b)*c = {:?}, a*(b*c) = {:?}",
                i, abc1[i], abc2[i]
            );
        }
    }

    // Test commutativity: a * b = b * a
    for _ in 0..5 {
        let mut a = [zero(); BATCH_SIZE];
        let mut b = [zero(); BATCH_SIZE];

        for i in 0..BATCH_SIZE {
            a[i] = rng.element(&SECP256K1_P);
            b[i] = rng.element(&SECP256K1_P);
        }

        let ab = mul_8(&cfg, &a, &b);
        let ba = mul_8(&cfg, &b, &a);

        for i in 0..BATCH_SIZE {
            assert_eq!(
                ab[i], ba[i],
                "Commutativity failed at index {}: a*b = {:?}, b*a = {:?}",
                i, ab[i], ba[i]
            );
        }
    }
}

#[test]
fn test_compute_inv_52() {
    // Test the Montgomery inverse computation
    // This test doesn't require a specific field type
    let test_moduli = [
        0x0000_0001_0000_0001u64, // Simple odd number
        0x000F_FFFF_FFFF_FFFFu64, // Near maximum 52-bit value
        0x0001_2345_6789_ABCDu64, // Random odd number
    ];

    for &modulus_low in &test_moduli {
        let modulus_masked = modulus_low & MASK_52;

        // Skip if not odd
        if modulus_masked & 1 == 0 {
            continue;
        }

        let inv = compute_inv_52(modulus_masked);

        // Verify: modulus * inv ≡ -1 (mod 2^52)
        // Which means: (modulus * inv + 1) ≡ 0 (mod 2^52)
        let product = modulus_masked.wrapping_mul(inv).wrapping_add(1);
        assert_eq!(
            product & MASK_52,
            0,
            "Invalid inverse for modulus {:#x}: inv = {:#x}, product = {:#x}",
            modulus_masked,
            inv,
            product
        );
    }
}

/// The Montgomery form `x * 2^256 mod p` of a small integer, computed with
/// the library: `mont(x, 2^512 mod p)`.
fn to_mont(cfg: &MontConfig, x: u64) -> Fp {
    let r2 = pow2_mod(512, &cfg.modulus.0);
    let a = [Fp(BigInt([x, 0, 0, 0])); BATCH_SIZE];
    let b = [Fp(BigInt(r2)); BATCH_SIZE];
    mul_8(cfg, &a, &b)[0]
}

#[test]
fn test_to_52bit_limbs_all_ones() {
    let mut limbs_52 = [0u64; LIMBS_52];
    to_52bit_limbs(&[u64::MAX; 4], &mut limbs_52);
    assert_eq!(limbs_52, [MASK_52, MASK_52, MASK_52, MASK_52, 0xFFFF_FFFF_FFFF]);
}

#[test]
fn test_to_52bit_limbs_bit_128_lands_in_limb_2() {
    // Bit 128 is bit 24 of the third 52-bit limb (bits 104..155).
    let mut limbs_52 = [0u64; LIMBS_52];
    to_52bit_limbs(&[0, 0, 1, 0], &mut limbs_52);
    assert_eq!(limbs_52, [0, 0, 1 << 24, 0, 0]);

    let mut limbs_52 = [0u64; LIMBS_52];
    to_52bit_limbs(&[0x0123_4567_89AB_CDEF, 0, 0xFEDC_BA98_7654_3210, 0], &mut limbs_52);
    assert_eq!(
        limbs_52,
        [0x0003_4567_89AB_CDEF, 0x012, 0x0006_5432_1000_0000, 0x000F_EDCB_A987, 0]
    );
}

#[test]
fn test_from_52bit_limbs_exact_and_truncated() {
    let mut limbs_64 = [0u64; 4];
    from_52bit_limbs(&[MASK_52, MASK_52, MASK_52, MASK_52, 0xFFFF_FFFF_FFFF], &mut limbs_64);
    assert_eq!(limbs_64, [u64::MAX; 4]);

    // 5 * 2^208 + 2^256: the bit above 256 does not fit in four 64-bit limbs.
    let mut limbs_64 = [7u64; 4];
    from_52bit_limbs(&[0, 0, 0, 0, (1 << 48) | 5], &mut limbs_64);
    assert_eq!(limbs_64, [0, 0, 0, 5 << 16]);
}

#[test]
fn test_compute_inv_52_exact_values() {
    // 1 * inv ≡ -1 (mod 2^52)
    assert_eq!(compute_inv_52(1), MASK_52);
    // 3 * 0x5555555555555 = 2^52 - 1 ≡ -1
    assert_eq!(compute_inv_52(3), 0x5_5555_5555_5555);
    // Many odd values, including ones with bits above 52.
    let mut rng = test_rng();
    for _ in 0..1000 {
        let m = rng.next_u64() | 1;
        let inv = compute_inv_52(m);
        assert!(inv <= MASK_52);
        assert_eq!(m.wrapping_mul(inv).wrapping_add(1) & MASK_52, 0);
    }
    // Even values have no inverse; the result still fits in 52 bits.
    for m in [0u64, 2, 0x0001_2345_6789_ABCC, u64::MAX - 1] {
        assert!(compute_inv_52(m) <= MASK_52);
    }
    for _ in 0..1000 {
        assert!(compute_inv_52(rng.next_u64() & !1) <= MASK_52);
    }
}

#[test]
fn test_geq_256_and_sub_256() {
    let p = SECP256K1_P;
    assert!(geq_256(&p, &p));
    let mut below = p;
    below[0] -= 1;
    assert!(!geq_256(&below, &p));
    assert!(geq_256(&p, &below));
    assert!(geq_256(&[0, 0, 0, 1], &[u64::MAX, u64::MAX, u64::MAX, 0]));

    // (p + 5) - p = 5, no borrow.
    let mut x = p;
    x[0] += 5;
    assert_eq!(sub_256(&mut x, &p), 0);
    assert_eq!(x, [5, 0, 0, 0]);

    // 1 - 2 wraps to 2^256 - 1 with a borrow.
    let mut y = [1u64, 0, 0, 0];
    assert_eq!(sub_256(&mut y, &[2, 0, 0, 0]), 1);
    assert_eq!(y, [u64::MAX; 4]);

    assert_eq!(overflowing_sub(3, 5), (u64::MAX - 1, true));
    assert_eq!(overflowing_sub(5, 3), (2, false));
}

#[test]
fn test_field_product_of_small_integers() {
    for p in [SECP256K1_P, BN254_P] {
        let cfg = config(p);
        let three = to_mont(&cfg, 3);
        let five = to_mont(&cfg, 5);
        let fifteen = to_mont(&cfg, 15);
        let product = mul_8(&cfg, &[three; BATCH_SIZE], &[five; BATCH_SIZE]);
        assert_eq!(product[0], fifteen);
        // Leaving Montgomery form: multiply by the plain integer 1.
        let plain = mul_8(&cfg, &product, &[Fp(BigInt([1, 0, 0, 0])); BATCH_SIZE]);
        assert_eq!(plain[7], Fp(BigInt([15, 0, 0, 0])));
    }
}

#[test]
fn test_bn254_batch_against_reference() {
    let mut rng = test_rng();
    let cfg = config(BN254_P);
    for _ in 0..20 {
        let mut a = [zero(); BATCH_SIZE];
        let mut b = [zero(); BATCH_SIZE];
        for i in 0..BATCH_SIZE {
            a[i] = rng.element(&BN254_P);
            b[i] = rng.element(&BN254_P);
        }
        let result = mul_8(&cfg, &a, &b);
        for i in 0..BATCH_SIZE {
            let expected = reference_mont_mul(&(a[i].0).0, &(b[i].0).0, &BN254_P);
            assert_eq!(result[i], Fp(BigInt(expected)));
        }
    }
}

#[test]
fn test_largest_elements() {
    // (p - 1) * (p - 1) as raw representations, and -1 * -1 == 1 in the field.
    for p in [SECP256K1_P, BN254_P] {
        let cfg = config(p);
        let mut p_minus_1 = p;
        p_minus_1[0] -= 1;
        let a = [Fp(BigInt(p_minus_1)); BATCH_SIZE];
        let mut result = [zero(); BATCH_SIZE];
        mont_square_batch_8(&cfg, &a, &mut result);
        assert_eq!(result[3], Fp(BigInt(reference_mont_mul(&p_minus_1, &p_minus_1, &p))));

        let one = mont_one(&p);
        let mut minus_one = p;
        let _ = sub_256(&mut minus_one, &(one.0).0);
        let sq = mul_8(&cfg, &[Fp(BigInt(minus_one)); BATCH_SIZE], &[Fp(BigInt(minus_one)); BATCH_SIZE]);
        assert_eq!(sq[0], one);
    }
}

#[test]
fn test_mont_mul_52_single_lane() {
    let p = SECP256K1_P;
    let mut p_52 = [0u64; LIMBS_52];
    to_52bit_limbs(&p, &mut p_52);
    let inv = compute_inv_52(p_52[0]);
    let x = [0x1111_2222_3333_4444, 0x5555_6666_7777_8888, 0x9999_AAAA_BBBB_CCCC, 0x0DDD_EEEE_FFFF_0000];
    let y = [0xDEAD_BEEF, 42, 0, 0x7000_0000_0000_0000];
    let mut x_52 = [0u64; LIMBS_52];
    let mut y_52 = [0u64; LIMBS_52];
    to_52bit_limbs(&x, &mut x_52);
    to_52bit_limbs(&y, &mut y_52);
    assert_eq!(mont_mul_52(&x_52, &y_52, &p, &p_52, inv), reference_mont_mul(&x, &y, &p));
}

