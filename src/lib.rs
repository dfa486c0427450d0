//! Observation of file opens and closes: the record the kernel probes emit,
//! the probe engine that pairs each open's entry with its return, and the
//! userspace side that decodes, enriches, filters and renders the events.

pub mod common;
pub mod probe;
pub mod file_event;
pub mod ebpf_monitor;
pub mod cli;
pub mod collector;
