//! When each watched process was started, for telling how long it has run.

use vstd::prelude::*;
use std::collections::HashMap;
use crate::models::Timestamp;
use crate::process_manager::uptime_secs;

verus! {

broadcast use vstd::std_specs::hash::group_hash_axioms;

/// The start times of the processes that are watched, by process id.
pub struct MetricsCollector {
    process_start_times: HashMap<u32, Timestamp>,
}

impl View for MetricsCollector {
    type V = Map<u32, Timestamp>;

    closed spec fn view(&self) -> Map<u32, Timestamp> {
        self.process_start_times@
    }
}

impl MetricsCollector {
    /// A collector that watches no process.
    pub fn new() -> (c: Self)
        ensures
            c@ == Map::<u32, Timestamp>::empty(),
    {
        MetricsCollector { process_start_times: HashMap::new() }
    }

    /// Notes that the process `pid` was started at `now`.
    pub fn register_process(&mut self, pid: u32, now: Timestamp)
        ensures
            final(self)@ == old(self)@.insert(pid, now),
    {
        self.process_start_times.insert(pid, now);
    }

    /// Forgets the process `pid`.
    pub fn unregister_process(&mut self, pid: u32)
        ensures
            final(self)@ == old(self)@.remove(pid),
    {
        self.process_start_times.remove(&pid);
    }

    /// Whole seconds since the process `pid` was started; none for a process
    /// that is not watched.
    pub fn uptime(&self, pid: u32, now: Timestamp) -> (r: u64)
        ensures
            r == if self@.dom().contains(pid) {
                uptime_secs(self@[pid], now)
            } else {
                0
            },
    {
        match self.process_start_times.get(&pid) {
            Some(start) => crate::process_manager::uptime_between(start, &now),
            None => 0,
        }
    }
}

} // verus!
