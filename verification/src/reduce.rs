//! Comparison and subtraction of 256-bit values held in four 64-bit limbs,
//! used for the final conditional subtraction of the modulus.
use crate::limbs::{two_pow_256, value64};
use vstd::prelude::*;

verus! {

/// `2^(64 i)`.
pub open spec fn word_pow(i: nat) -> int
    decreases i,
{
    if i == 0 {
        1
    } else {
        0x10000000000000000int * word_pow((i - 1) as nat)
    }
}

/// The value of the lowest `i` 64-bit limbs of `l`.
pub open spec fn low_limbs64(l: [u64; 4], i: nat) -> int
    decreases i,
{
    if i == 0 {
        0
    } else {
        low_limbs64(l, (i - 1) as nat) + l[i - 1] as int * word_pow((i - 1) as nat)
    }
}

proof fn lemma_low_limbs64_full()
    ensures
        word_pow(4) == two_pow_256(),
        forall|l: [u64; 4]| #[trigger] low_limbs64(l, 4) == value64(l),
{
    reveal_with_fuel(word_pow, 5);
    assert(word_pow(0) == 1);
    assert(word_pow(1) == 0x10000000000000000int);
    assert(word_pow(2) == 0x100000000000000000000000000000000int);
    assert(word_pow(3) == 0x1000000000000000000000000000000000000000000000000int);
    assert(word_pow(4) == two_pow_256());
    assert forall|l: [u64; 4]| #[trigger] low_limbs64(l, 4) == value64(l) by {
        reveal_with_fuel(low_limbs64, 5);
        reveal_with_fuel(word_pow, 5);
        assert(word_pow(0) == 1);
        assert(low_limbs64(l, 1) == l[0] as int);
        assert(low_limbs64(l, 2) == low_limbs64(l, 1) + l[1] as int * word_pow(1));
        assert(low_limbs64(l, 3) == low_limbs64(l, 2) + l[2] as int * word_pow(2));
        assert(low_limbs64(l, 4) == low_limbs64(l, 3) + l[3] as int * word_pow(3));
    }
}

proof fn lemma_low_limbs64_agree(l1: [u64; 4], l2: [u64; 4], j: nat)
    requires
        forall|k: int| 0 <= k < j ==> l1[k] == l2[k],
    ensures
        low_limbs64(l1, j) == low_limbs64(l2, j),
    decreases j,
{
    if j > 0 {
        lemma_low_limbs64_agree(l1, l2, (j - 1) as nat);
    }
}

/// When the limbs above `j` agree and limb `j` of `x` is larger, so is `x`.
proof fn lemma_lex_greater(x: [u64; 4], y: [u64; 4], j: int)
    requires
        0 <= j < 4,
        forall|k: int| j < k < 4 ==> x[k] == y[k],
        x[j] > y[j],
    ensures
        value64(x) > value64(y),
{
    if j == 0 {
        assert(x[1] == y[1] && x[2] == y[2] && x[3] == y[3]);
    } else if j == 1 {
        assert(x[2] == y[2] && x[3] == y[3]);
    } else if j == 2 {
        assert(x[3] == y[3]);
    }
}

/// `x >= y` as 256-bit unsigned integers, comparing limbs from the top.
pub fn geq_256(x: &[u64; 4], y: &[u64; 4]) -> (r: bool)
    ensures
        r == (value64(*x) >= value64(*y)),
{
    let mut j: usize = 4;
    while j > 0
        invariant
            j <= 4,
            forall|k: int| j <= k < 4 ==> x[k] == y[k],
        decreases j,
    {
        j = j - 1;
        if x[j] > y[j] {
            proof {
                lemma_lex_greater(*x, *y, j as int);
            }
            return true;
        } else if x[j] < y[j] {
            proof {
                lemma_lex_greater(*y, *x, j as int);
            }
            return false;
        }
    }
    assert(x[0] == y[0] && x[1] == y[1] && x[2] == y[2] && x[3] == y[3]);
    true
}

/// `x - y` with a flag telling whether the subtraction wrapped.
pub fn overflowing_sub(x: u64, y: u64) -> (res: (u64, bool))
    ensures
        res.1 == (x < y),
        res.0 as int == x as int - y as int + (if x < y {
            0x10000000000000000int
        } else {
            0
        }),
{
    (x.wrapping_sub(y), x < y)
}

/// `x -= y` modulo `2^256`; returns the final borrow.
pub fn sub_256(x: &mut [u64; 4], y: &[u64; 4]) -> (borrow: u64)
    ensures
        borrow <= 1,
        value64(*final(x)) - borrow as int * two_pow_256() == value64(*old(x)) - value64(*y),
{
    let ghost x_in = *x;
    let mut borrow = 0u64;
    proof {
        reveal_with_fuel(word_pow, 1);
        reveal_with_fuel(low_limbs64, 1);
    }
    for j in 0..4
        invariant
            borrow <= 1,
            forall|k: int| j <= k < 4 ==> x[k] == x_in[k],
            low_limbs64(*x, j as nat) - borrow as int * word_pow(j as nat) == low_limbs64(
                x_in,
                j as nat,
            ) - low_limbs64(*y, j as nat),
    {
        let ghost before = *x;
        let ghost b_in = borrow;
        let (diff, b1) = overflowing_sub(x[j], y[j]);
        let (diff, b2) = overflowing_sub(diff, borrow);
        x[j] = diff;
        borrow = if b1 || b2 {
            1
        } else {
            0
        };
        proof {
            assert(x_in[j as int] == before[j as int]);
            assert(diff as int == x_in[j as int] as int - y[j as int] as int - b_in as int
                + borrow as int * 0x10000000000000000int);
            lemma_low_limbs64_agree(*x, before, j as nat);
            let wp = word_pow(j as nat);
            assert(word_pow((j + 1) as nat) == 0x10000000000000000int * wp);
            assert(diff as int * wp - borrow as int * (0x10000000000000000int * wp) == (
            x_in[j as int] as int - y[j as int] as int - b_in as int) * wp) by (nonlinear_arith)
                requires
                    diff as int == x_in[j as int] as int - y[j as int] as int - b_in as int
                        + borrow as int * 0x10000000000000000int,
            ;
            assert((x_in[j as int] as int - y[j as int] as int - b_in as int) * wp == x_in[j as int]
                as int * wp - y[j as int] as int * wp - b_in as int * wp) by (nonlinear_arith);
        }
    }
    proof {
        lemma_low_limbs64_full();
    }
    borrow
}

} // verus!
