//! The body of a score request.
pub mod fields;
pub mod slots;
pub mod value;
