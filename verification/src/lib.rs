//! Core logic of a local-first code assistant: text scanning, diff analysis,
//! symbol extraction, chunking, replicated memories, sync framing, change
//! debouncing and the daemon's request protocol.

pub mod text;
pub mod split;
pub mod number;
pub mod git;
pub mod agents;
pub mod deepseek;
pub mod llm;
pub mod storage;
pub mod paths;
pub mod seqs;
pub mod rag;
pub mod sync;
pub mod watcher;
pub mod daemon;
