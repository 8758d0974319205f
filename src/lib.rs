//! Sampling and reconciliation engine of a host resource monitor: CPU
//! utilisation from successive tick counters, a process table kept in step
//! with the live process listing, and the snapshot handed to rendering.
pub mod cpu;
pub mod text;
pub mod stat;
pub mod table;
pub mod system;
pub mod monitor;
