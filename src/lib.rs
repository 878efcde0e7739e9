//! A CI orchestrator: job specifications are compiled into per-worker task
//! queues separated by barriers, and workers drain those queues on a pool of
//! reusable remote-execution handles.

pub mod action;
pub mod args;
pub mod config;
pub mod credentials;
pub mod document;
pub mod job;
pub mod runner;
pub mod scheduler;
pub mod task;
pub mod trigger;
pub mod worker;
