//! Arbitrary-precision natural numbers, stored as `u64` limbs in
//! little-endian order and kept canonical: the limb sequence never ends in a
//! zero limb, so every integer has exactly one representation. Alongside the
//! number type lives a small optional container whose deep duplication is
//! available exactly when its payload can be duplicated.

pub mod bignat;
pub mod optional;
mod variant;

pub use bignat::BigInt;
pub use bignat::canonical;
pub use bignat::strip_trailing_zeros;
pub use bignat::limbs_value;
pub use bignat::lemma_canonical_value_lower_bound;
pub use bignat::lemma_canonical_value_unique;
pub use bignat::lemma_limbs_value_bound;
pub use bignat::lemma_strip_canonical;
pub use bignat::lemma_strip_idempotent;
pub use bignat::lemma_strip_preserves_value;
pub use bignat::lemma_strip_is_prefix;
pub use optional::SomethingOrNothing;
