//! Memory management: addresses, frames, page tables and address spaces.

pub mod address;
pub mod frame_allocator;
pub mod image;
pub mod lifecycle;
pub mod memory_set;
pub mod mmap;
pub mod page_table;
pub mod translated;
