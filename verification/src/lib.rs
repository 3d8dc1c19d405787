//! A linear (bump-pointer) memory arena: a fixed-capacity byte buffer from
//! which blocks are carved out sequentially, with no per-block deallocation,
//! and with nested temporary regions that can be committed or rolled back as
//! a unit in LIFO order.

pub mod arena;
pub mod laws;

pub use arena::MemoryArena;
pub use arena::OutOfMemoryError;
pub use arena::TemporaryRegion;
pub use arena::UsageError;
pub use arena::align_up;
