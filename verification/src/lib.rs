//! A deterministic actor runtime: a message scheduler that delivers by a
//! total order on `(logical_time, target, sequence_id)`, a bytecode virtual
//! machine whose time and randomness are pure functions of its inputs, and
//! the surrounding actor, tracing, supervision and capability machinery.
//!
//! Fed the same multiset of stamped messages, two schedulers reach the same
//! states and produce the same trace, whatever order the messages arrived
//! in — the property the ordering lemmas in [`scheduler`] and the machine's
//! small-step contract in [`vm`] pin down.

pub mod actor;
pub mod arena;
pub mod capability;
pub mod codegen;
pub mod distributed;
pub mod fault;
pub mod message;
pub mod order;
pub mod scheduler;
pub mod snapshot;
pub mod supervisor;
pub mod table;
pub mod text;
pub mod trace;
pub mod value;
pub mod vm;
