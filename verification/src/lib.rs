//! Durable execution runtime: the verified core.
//!
//! Content hashing, identifiers, execution and step state machines,
//! the write-ahead log format, the in-memory execution log, the
//! event-sourced state projection and the step memoisation logic.

pub mod hash;
pub mod wal;
pub mod text;
pub mod uuid;
pub mod types;
pub mod error;
pub mod keyed;
pub mod time;
pub mod memory;
pub mod cancel;
pub mod storage;
pub mod context;
pub mod event;
pub mod replay;
pub mod dag;
pub mod coordinator;
pub mod inspect;
pub mod response;
pub mod tool;
pub mod llm;
pub mod conversation;
pub mod worker;
pub mod jsontext;
pub mod jsonread;
pub mod log;
pub mod journal;
pub mod agent;
pub mod engine;
pub mod chain;
