//! Containers indexed by trivial enumerations: enumerations whose variants
//! are payload-free and map one-to-one onto the positions `0..ENUM_SIZE`.
//!
//! [`TrivialEnum`] is the capability that such an enumeration offers.
//! [`EnumIterator`] walks its variants, [`EnumArray`] holds one value for each
//! of them, [`EnumBitset`] holds a set of them in one word, and [`Vector`]
//! gives any container with [`VectorMath`] the arithmetic operators. The
//! module `derivation` decides which declarations can be given the capability.

pub mod bits;
mod convert;
pub mod derivation;
pub mod enum_array;
pub mod enum_bitset;
pub mod enum_iterator;
pub mod trivial_enum;
pub mod vector_math;

pub use enum_array::EnumArray;
pub use enum_bitset::{EnumBitset, EnumBitsetIter};
pub use enum_iterator::EnumIterator;
pub use trivial_enum::TrivialEnum;
pub use vector_math::{Vector, VectorMath};
