//! The long-lived monitor: its process table, its host-wide figures, and the
//! snapshot that each tick hands to rendering.
use vstd::prelude::*;
use crate::cpu::{estimate_spec, TickSnapshot, FULL_USAGE_MILLI};
use crate::stat::RecordView;
use crate::system::{MemoryStats, SystemMonitor};
use crate::table::{reconciled, ListingEntry, ProcessTable};

verus! {

/// The process table, with the number of processes it holds.
pub struct ProcessMonitor {
    pub proc_map: ProcessTable,
    pub n_procs: u64,
}

impl ProcessMonitor {
    pub open spec fn wf(&self) -> bool {
        self.n_procs == self.proc_map@.dom().len()
    }

    pub fn new() -> (r: ProcessMonitor)
        ensures
            r.wf(),
            r.proc_map@ == Map::<u32, RecordView>::empty(),
    {
        let proc_map = ProcessTable::new();
        proof {
            assert(proc_map@.dom() =~= Set::<u32>::empty());
        }
        ProcessMonitor { proc_map, n_procs: 0 }
    }

    /// Reconciles the table with a fresh listing and counts its processes.
    pub fn fetch(&mut self, listing: &Vec<ListingEntry>)
        requires
            old(self).wf(),
        ensures
            final(self).wf(),
            final(self).proc_map@ == reconciled(old(self).proc_map@, listing@),
    {
        self.proc_map.reconcile(listing);
        self.n_procs = self.proc_map.len() as u64;
    }
}

/// What one tick hands to rendering: the utilisation (thousandths of a
/// percent), the memory totals, and the process table as it stands.
pub struct Snapshot<'a> {
    pub cpu_usage: u32,
    pub memory: MemoryStats,
    pub processes: &'a ProcessTable,
}

/// The monitor: one instance owns all state carried from tick to tick.
pub struct App {
    pub system: SystemMonitor,
    pub processes: ProcessMonitor,
}

impl App {
    pub open spec fn wf(&self) -> bool {
        self.processes.wf() && self.system.cpu_usage <= FULL_USAGE_MILLI
    }

    pub open spec fn table(&self) -> Map<u32, RecordView> {
        self.processes.proc_map@
    }

    pub open spec fn previous(&self) -> Option<TickSnapshot> {
        self.system.previous
    }

    pub fn new() -> (r: App)
        ensures
            r.wf(),
            r.table() == Map::<u32, RecordView>::empty(),
            r.previous() is None,
    {
        App { system: SystemMonitor::new(), processes: ProcessMonitor::new() }
    }

    /// One tick: measure utilisation against the retained sample, take the
    /// memory totals, and reconcile the process table.
    pub fn tick(
        &mut self,
        ticks: Option<TickSnapshot>,
        memory: MemoryStats,
        listing: &Vec<ListingEntry>,
    )
        requires
            old(self).wf(),
        ensures
            final(self).wf(),
            final(self).table() == reconciled(old(self).table(), listing@),
            final(self).system.memory() == memory,
            match ticks {
                Some(c) => final(self).system.cpu_usage as int == estimate_spec(
                    old(self).previous(),
                    c,
                ) && final(self).previous() == Some(c),
                None => final(self).system.cpu_usage == 0 && final(self).previous() == old(
                    self,
                ).previous(),
            },
    {
        self.system.record_ticks(ticks);
        self.system.record_memory(memory);
        self.processes.fetch(listing);
    }

    /// The rendering input of the current tick.
    pub fn snapshot(&self) -> (r: Snapshot<'_>)
        ensures
            r.cpu_usage == self.system.cpu_usage,
            r.memory == self.system.memory(),
            r.processes@ == self.table(),
    {
        Snapshot {
            cpu_usage: self.system.cpu_usage,
            memory: self.system.memory(),
            processes: &self.processes.proc_map,
        }
    }
}

} // verus!
