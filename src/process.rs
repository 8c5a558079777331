//! The record that a filter is evaluated against.
use crate::number::Number;
use vstd::prelude::*;

verus! {

/// Metrics of one process. A filter reads `pid`, `name`, `cpu_percent`,
/// `memory_percent` and `user`; the other fields ride along for output.
#[derive(Debug, Clone)]
pub struct ProcessInfo {
    /// Process ID
    pub pid: u32,
    /// Process name
    pub name: String,
    /// CPU usage percentage (0-100+)
    pub cpu_percent: Number,
    /// Memory usage in bytes
    pub memory_bytes: u64,
    /// Memory usage percentage (0-100)
    pub memory_percent: Number,
    /// User ID (may be a numeric string like "501")
    pub user: String,
    /// Full command line
    pub command: String,
    /// Number of threads
    pub thread_count: usize,
    /// Total bytes read from disk
    pub disk_read_bytes: u64,
    /// Total bytes written to disk
    pub disk_write_bytes: u64,
    /// Number of open file descriptors (None if unavailable)
    pub open_files: Option<usize>,
}

} // verus!
