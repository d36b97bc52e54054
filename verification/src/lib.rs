//! Chain-management core of a small blockchain node: fork choice with
//! orphan buffering, an in-memory block store with a persisted tip tag,
//! a transaction pool with time-based eviction, a FIFO message box for
//! inter-task communication, and the typed intercom message shapes.

pub mod blockcfg;
pub mod intercom;
pub mod tpool;
pub mod task;
pub mod storage;
pub mod blockchain;
