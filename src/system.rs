//! Host-wide figures: CPU utilisation and memory and swap totals.
use vstd::prelude::*;
use sysinfo::System;
use crate::cpu::{estimate, estimate_spec, TickSnapshot, FULL_USAGE_MILLI};

verus! {

#[verifier::external_type_specification]
#[verifier::external_body]
pub struct ExSystem(System);

/// Relies on sysinfo's `System::total_memory`: the RAM it last read, in bytes.
pub assume_specification[ System::total_memory ](s: &System) -> u64;

/// Relies on sysinfo's `System::free_memory`: the free RAM it last read, in bytes.
pub assume_specification[ System::free_memory ](s: &System) -> u64;

/// Relies on sysinfo's `System::total_swap`: the swap it last read, in bytes.
pub assume_specification[ System::total_swap ](s: &System) -> u64;

/// Relies on sysinfo's `System::free_swap`: the free swap it last read, in bytes.
pub assume_specification[ System::free_swap ](s: &System) -> u64;

/// Memory and swap totals in kilobytes, passed through as the host reports
/// them (free may exceed total).
#[derive(Clone, Copy, Debug, PartialEq, Eq, Structural)]
pub struct MemoryStats {
    pub mem_total: u64,
    pub mem_free: u64,
    pub swap_total: u64,
    pub swap_free: u64,
}

impl MemoryStats {
    /// The totals in kilobytes, from byte counts (rounded down).
    pub fn from_bytes(mem_total: u64, mem_free: u64, swap_total: u64, swap_free: u64) -> (r:
        MemoryStats)
        ensures
            r.mem_total == mem_total / 1024,
            r.mem_free == mem_free / 1024,
            r.swap_total == swap_total / 1024,
            r.swap_free == swap_free / 1024,
    {
        MemoryStats {
            mem_total: mem_total / 1024,
            mem_free: mem_free / 1024,
            swap_total: swap_total / 1024,
            swap_free: swap_free / 1024,
        }
    }
}

/// The memory and swap totals that `src` last refreshed, in kilobytes.
pub fn read_memory(src: &System) -> (r: MemoryStats)
    ensures
        r.mem_total <= u64::MAX / 1024,
        r.mem_free <= u64::MAX / 1024,
        r.swap_total <= u64::MAX / 1024,
        r.swap_free <= u64::MAX / 1024,
{
    MemoryStats::from_bytes(src.total_memory(), src.free_memory(), src.total_swap(), src.free_swap())
}

/// The host-wide part of a sample, with the one earlier tick sample that the
/// next utilisation is measured from.
pub struct SystemMonitor {
    /// Utilisation over the last interval, in thousandths of a percent.
    pub cpu_usage: u32,
    pub mem_total: u64,
    pub mem_free: u64,
    pub swap_total: u64,
    pub swap_free: u64,
    pub previous: Option<TickSnapshot>,
}

impl SystemMonitor {
    pub fn new() -> (r: SystemMonitor)
        ensures
            r.cpu_usage == 0,
            r.mem_total == 0 && r.mem_free == 0 && r.swap_total == 0 && r.swap_free == 0,
            r.previous is None,
    {
        SystemMonitor {
            cpu_usage: 0,
            mem_total: 0,
            mem_free: 0,
            swap_total: 0,
            swap_free: 0,
            previous: None,
        }
    }

    /// Takes this tick's aggregate counters, or `None` where they could not
    /// be read: then the utilisation reads zero and the earlier sample stays
    /// the one to measure from.
    pub fn record_ticks(&mut self, current: Option<TickSnapshot>)
        ensures
            final(self).cpu_usage <= FULL_USAGE_MILLI,
            match current {
                Some(c) => final(self).cpu_usage as int == estimate_spec(old(self).previous, c)
                    && final(self).previous == Some(c),
                None => final(self).cpu_usage == 0 && final(self).previous == old(
                    self,
                ).previous,
            },
            final(self).mem_total == old(self).mem_total,
            final(self).mem_free == old(self).mem_free,
            final(self).swap_total == old(self).swap_total,
            final(self).swap_free == old(self).swap_free,
    {
        match current {
            Some(c) => {
                self.cpu_usage = estimate(self.previous, &c);
                self.previous = Some(c);
            },
            None => {
                self.cpu_usage = 0;
            },
        }
    }

    /// Takes this tick's memory and swap totals.
    pub fn record_memory(&mut self, memory: MemoryStats)
        ensures
            final(self).memory() == memory,
            final(self).cpu_usage == old(self).cpu_usage,
            final(self).previous == old(self).previous,
    {
        self.mem_total = memory.mem_total;
        self.mem_free = memory.mem_free;
        self.swap_total = memory.swap_total;
        self.swap_free = memory.swap_free;
    }

    /// One tick's host-wide update: the utilisation from this tick's
    /// aggregate counters (as `record_ticks`), and the memory and swap totals
    /// that `src` last refreshed, in kilobytes.
    pub fn fetch(&mut self, src: &System, current: Option<TickSnapshot>)
        ensures
            final(self).cpu_usage <= FULL_USAGE_MILLI,
            match current {
                Some(c) => final(self).cpu_usage as int == estimate_spec(old(self).previous, c)
                    && final(self).previous == Some(c),
                None => final(self).cpu_usage == 0 && final(self).previous == old(
                    self,
                ).previous,
            },
            final(self).mem_total <= u64::MAX / 1024,
            final(self).mem_free <= u64::MAX / 1024,
            final(self).swap_total <= u64::MAX / 1024,
            final(self).swap_free <= u64::MAX / 1024,
    {
        self.record_ticks(current);
        let memory = read_memory(src);
        self.record_memory(memory);
    }

    pub open spec fn memory_spec(&self) -> MemoryStats {
        MemoryStats {
            mem_total: self.mem_total,
            mem_free: self.mem_free,
            swap_total: self.swap_total,
            swap_free: self.swap_free,
        }
    }

    #[verifier::when_used_as_spec(memory_spec)]
    pub fn memory(&self) -> (r: MemoryStats)
        ensures
            r == self.memory_spec(),
    {
        MemoryStats {
            mem_total: self.mem_total,
            mem_free: self.mem_free,
            swap_total: self.swap_total,
            swap_free: self.swap_free,
        }
    }
}

} // verus!
