//! Performance helpers: memory measurement support and startup timing.

pub mod memory;
pub mod startup;
