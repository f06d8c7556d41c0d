//! Fixed-width unsigned integers of 33 machine words, with carry-aware
//! arithmetic, for use as the storage of prime-field elements.

pub mod biginteger;
pub mod format;
pub mod laws;
pub mod random;
pub mod utils;
pub mod value;
