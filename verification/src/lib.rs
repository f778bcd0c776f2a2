//! Batch Montgomery multiplication over 256-bit prime fields, computed in
//! a redundant radix-2^52 representation (five 52-bit limbs per element).
pub mod batch;
pub mod inverse;
pub mod laws;
pub mod limbs;
pub mod modular;
pub mod montgomery;
pub mod reduce;

pub use batch::{mont_mul_batch_8, mont_square_batch_8, BigInt, Fp, MontConfig, BATCH_SIZE};
pub use inverse::compute_inv_52;
pub use limbs::{from_52bit_limbs, to_52bit_limbs, LIMBS_52, MASK_52};
pub use montgomery::mont_mul_52;
