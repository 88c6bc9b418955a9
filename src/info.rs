//! Readers that report each host fact as optional text.

pub mod cpu;
pub mod memory;
pub mod os;
