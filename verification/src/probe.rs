//! A look at the operating system's process table, through `sysinfo`. What
//! it shows changes from one moment to the next, so nothing is claimed of it.

use vstd::prelude::*;

verus! {

/// `sysinfo::System::process` on a freshly read process table: the resident
/// memory, in bytes, of the process with this id, or nothing when the table
/// holds no such process.
#[verifier::external_body]
pub(crate) fn process_memory(pid: u32) -> Option<u64> {
    let mut system = sysinfo::System::new();
    system.refresh_processes();
    system.process(sysinfo::Pid::from(pid as usize)).map(|p| p.memory())
}

} // verus!
