//! Early-boot kernel allocation primitives.
//!
//! The heart of the crate is [`early::EarlyAllocator`], a dual-ended bump
//! allocator over one fixed memory region: byte allocations grow forward from
//! the start of the region, page allocations grow backward from its end, and
//! the two zones meet in the middle but never overlap. A small open-addressing
//! hash map built on an FNV hash accompanies it in [`hash_map`].

pub mod early;
pub mod hash_map;
