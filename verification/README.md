# ark_ff (batch Montgomery multiplication, radix 2^52)

Batch Montgomery multiplication and squaring of eight 256-bit prime-field
elements at a time, computed in the redundant five-limb radix-2^52
representation used by IFMA-style multiply-accumulate, and proved with Verus.

Layout of `src/`:

- `limbs.rs` — the 4×64-bit and 5×52-bit representations and the conversions
  `to_52bit_limbs` / `from_52bit_limbs`.
- `inverse.rs` — `compute_inv_52`, the Montgomery constant `-p^{-1} mod 2^52`
  by Newton iteration.
- `montgomery.rs` — the lane operations (`madd52lo`, `madd52hi`), the CIOS
  rounds, carry normalization and `mont_mul_52`, with the specification
  `is_mont_product`.
- `reduce.rs` — 256-bit comparison and subtraction for the final reduction.
- `modular.rs` — cancelling powers of two modulo an odd modulus.
- `batch.rs` — `BigInt`, `Fp`, `MontConfig` and the public batch operations
  `mont_mul_batch_8` and `mont_square_batch_8`.
- `laws.rs` — uniqueness, commutativity, associativity, zero and one laws of
  the Montgomery product, the field-product law, and the limb round trip.
