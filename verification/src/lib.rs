//! Tools for patching a fixed-size cartridge image for a banked, memory-mapped
//! console platform: address-space translation between flat file offsets and
//! bank addresses, a tag-based free-space allocator, two command-stream
//! decompressors, and a binary level encoder.

pub mod address;
pub mod rats;
pub mod lc_lz_shared;
pub mod lc_lz2;
pub mod lc_lz3;
pub mod spr;
pub mod entrance;
pub mod level;
pub mod rle;
pub mod binlevel;
pub mod level_table;

pub use address::Address;
pub use address::Mapper;
