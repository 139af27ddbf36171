//! The configuration of the asynchronous task pool.
pub mod async_task;

pub use crate::common::async_task::TaskPoolConfig;
