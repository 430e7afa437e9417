//! Inventory of Linux kernel modules: decompress a module binary, locate its
//! metadata section in the ELF section table, and parse the NUL-separated
//! `key=value` records found there into a structured `ModuleInfo`.

pub mod bytes;
pub mod errors;
pub mod extract;
pub mod inflate;
pub mod laws;
pub mod loaded;
pub mod modinfo;
pub mod section;
pub mod utf8;
