//! Host information extraction: parsers for the kernel's text pseudo-files
//! and formatters for the values derived from them.

pub mod cpu;
pub mod info;
pub mod kv;
pub mod memory;
pub mod os;
pub mod packages;
pub mod shell;
pub mod text;
pub mod title;
pub mod uptime;
