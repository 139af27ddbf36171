//! The configuration of the asynchronous task pool.
use vstd::prelude::*;

verus! {

/// How the task pool's runtime is built.
#[derive(Debug, Clone)]
pub struct TaskPoolConfig {
    pub worker_threads: usize,
    pub thread_name: String,
    pub enable_io: bool,
    pub enable_time: bool,
}

impl TaskPoolConfig {
    /// The default configuration on a machine whose available parallelism is
    /// `available` (`None` when it cannot be known): one worker per unit of
    /// parallelism, else one worker; workers named `global-async-worker`;
    /// I/O and timers enabled.
    pub fn from_parallelism(available: Option<usize>) -> (c: Self)
        ensures
            c.worker_threads == match available {
                Some(n) => n,
                None => 1,
            },
            c.thread_name@ == "global-async-worker"@,
            c.enable_io,
            c.enable_time,
    {
        let worker_threads = match available {
            Some(n) => n,
            None => 1,
        };
        Self {
            worker_threads,
            thread_name: "global-async-worker".to_owned(),
            enable_io: true,
            enable_time: true,
        }
    }
}

} // verus!
