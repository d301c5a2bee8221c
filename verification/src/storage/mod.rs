//! What is kept: memories and the rows of the codebase index.

pub mod codebase;
pub mod crdt_memory;
pub mod document;
pub mod memory;

pub use codebase::{CodebaseStats, IndexedFile};
pub use crdt_memory::{CrdtMemory, CrdtMemoryStore, CrdtMemoryType};
pub use memory::MemoryType;
