//! Bump-pointer memory arenas: a fixed arena, a heap-growable arena, and process-wide
//! forms of both whose committed offset is shared by every thread. The arenas keep the
//! books, in byte offsets from the start of their memory; whoever holds the memory adds
//! those offsets to its base address.

pub mod align;
pub mod arena;
pub mod bump;
pub mod global;
pub mod growable;
pub mod verbose;

pub use align::{align_up, checked_align_up, is_valid_align};
pub use arena::{ArenaAllocator, Backing};
pub use bump::{bump_commit, bump_start, AllocError, BumpAllocator, Region};
pub use global::{Claim, SbrkAlloc, SimpleAlloc, ARENA_SIZE};
pub use growable::{grown_capacity, growth_step, SbrkAllocator, PAGE_SIZE};
pub use verbose::VerboseAllocator;
