//! A segregated-fit slab allocator whose heaps live in memory-protection domains.
//!
//! The library holds the allocator's decisions over plain addresses: layouts and
//! their padding, size-class dispatch, the per-class bins (free stack, bump region,
//! chunk list), the page-mapping arithmetic, the protection levels and the byte
//! copies a reallocation performs. Mapping memory and switching protection keys is
//! done by the caller with the values these functions hand back.

mod arith;
pub mod bin;
pub mod bytes;
pub mod class;
pub mod heap;
pub mod layout;
pub mod page;
pub mod protection;

pub use bytes::{copy_prefix, zero_fill};
pub use bin::{Bin, FreeList};
pub use class::{class_for_size, CHUNK_SIZE, MAX_ALIGN, NUM_CLASSES};
pub use heap::{route, AllocStep, Bins, RSBMalloc, ResizeStep, Route};
pub use layout::MemLayout;
pub use page::{PageAllocator, ReallocPlan};
pub use protection::{
    label_from_raw, teardown, LevelScope, ProtectionError, ProtectionLevel, TeardownStep,
};
