//! Editor-side coordinate handling.

pub mod position;
