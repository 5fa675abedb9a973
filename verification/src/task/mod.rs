//! Processes and threads: numbers and stacks, saved registers, signals, the
//! ready queue and the processor.
pub mod action;
pub mod context;
pub mod delivery;
pub mod id;
pub mod manager;
pub mod process;
pub mod processor;
pub mod reap;
pub mod sched;
pub mod signal;
pub mod task;
pub mod user_res;
