//! In-memory block index of a key-value NVMe store: logical addresses of
//! 4 KiB pages are mapped, through a two-level cache, to physical addresses.

pub mod addr;
pub mod codec;
pub mod text;
pub mod index;
pub mod convert;
pub mod indexapi4c;
pub mod rbio;
pub mod kvdb;
pub mod bench;
