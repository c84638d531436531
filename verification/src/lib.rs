//! Fixed-precision, heap-allocated unsigned big integers.
//!
//! The central type is `BoxedUint`: an ordered buffer of fixed-width
//! limbs, least significant first, whose precision is chosen at
//! construction and never grows. The crate provides the constructors,
//! the constant-time selection and zero-test primitives, the generic
//! carry-chain combinator that limb-wise arithmetic is built on, and
//! strict big/little-endian byte decoding.

pub mod boxed;
pub mod choice;
pub mod encoding;
pub mod hex;
pub mod limb;

pub use boxed::BoxedUint;
pub use choice::Choice;
pub use encoding::DecodeError;
pub use limb::Limb;
