//! Arbitrary-width unsigned bit vectors, stored least significant bit first.

pub mod bit;
pub mod format;
pub mod laws;
pub mod math;
pub mod operators;
pub mod ops;
pub mod order;
pub mod parse;
pub mod signed_value;
pub mod slice;
pub mod value;

pub use self::bit::Bit;
pub use self::slice::{ValueSlice, ValueSliceMut};
pub use self::value::Value;
pub use self::signed_value::SignedValue;
