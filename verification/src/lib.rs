//! Complex-number arithmetic over exact fixed-point decimal scalars.
//!
//! Scalars are `Dec` values: an integer mantissa together with a count of
//! decimal places, always kept in canonical form (no trailing fractional
//! zeros). Addition, subtraction and multiplication scale both operands to
//! a common power of ten, combine the integer mantissas exactly, and
//! rescale; complex division rounds each component to five decimal places.

pub mod complex;
pub mod digits;
pub mod pow;
pub mod precise;

pub use complex::C64;
pub use digits::decimal_places;
pub use digits::Dec;
pub use precise::precise_add;
pub use precise::precise_multiply;
pub use precise::precise_subtract;
