//! Data model: the immutable activity record flowing through the pipeline,
//! the process snapshot attached to it, the error taxonomy, the query shape
//! consumed by storage, and the pipeline configuration.

use vstd::prelude::*;

verus! {

/// A point-in-time snapshot of the process that produced an event.
/// Never updated after creation.
#[derive(Debug, PartialEq)]
pub struct ProcessInfo {
    pub pid: i32,
    pub ppid: i32,
    pub uid: u32,
    pub gid: u32,
    pub comm: String,
    pub exe: String,
}

impl Clone for ProcessInfo {
    fn clone(&self) -> (r: Self)
        ensures
            r == *self,
    {
        ProcessInfo {
            pid: self.pid,
            ppid: self.ppid,
            uid: self.uid,
            gid: self.gid,
            comm: self.comm.clone(),
            exe: self.exe.clone(),
        }
    }
}

/// One observed-activity record. Immutable once created: a processor that
/// "mutates" an event produces a new value, never an in-place edit visible
/// to other holders.
#[derive(Debug, PartialEq)]
pub struct Event {
    /// Unique within the pipeline lifetime, assigned by the collector.
    pub id: String,
    /// Nanoseconds, monotonic per originating collector only.
    pub timestamp: u64,
    /// Categorical tag, e.g. "process_exec", "file_open", "network_connect".
    pub event_type: String,
    /// Snapshot of the process that generated the event.
    pub process: ProcessInfo,
    /// Open-ended payload carried as text; the pipeline never interprets it.
    pub data: String,
}

impl Clone for Event {
    fn clone(&self) -> (r: Self)
        ensures
            r == *self,
    {
        Event {
            id: self.id.clone(),
            timestamp: self.timestamp,
            event_type: self.event_type.clone(),
            process: self.process.clone(),
            data: self.data.clone(),
        }
    }
}

/// Error taxonomy: collection (collector start/stop), processing (a
/// processor's internal failure), storage (persistence or query failure).
#[derive(Debug, Clone, PartialEq)]
pub enum EventError {
    CollectionError(String),
    ProcessingError(String),
    StorageError(String),
}

/// Filter on the originating process, consumed only by storage.
#[derive(Debug, Clone)]
pub struct ProcessFilter {
    pub pid: Option<i32>,
    pub comm: Option<String>,
    pub uid: Option<u32>,
}

/// Query over stored events: time range, event-type set, process filter,
/// result limit. Consumed only by storage, never by the pipeline itself.
#[derive(Debug, Clone)]
pub struct EventQuery {
    pub start_time: Option<u64>,
    pub end_time: Option<u64>,
    pub event_types: Option<Vec<String>>,
    pub process_filter: Option<ProcessFilter>,
    pub limit: Option<usize>,
}

/// Pipeline configuration, fixed at construction: bus capacity (also the
/// lag/drop threshold), batch flush threshold, and worker count.
#[derive(Debug, Clone, PartialEq, Eq)]
pub struct EventConfig {
    pub buffer_size: usize,
    pub batch_size: usize,
    pub processor_parallelism: usize,
}

impl Default for EventConfig {
    fn default() -> (c: Self)
        ensures
            c.buffer_size == 10000,
            c.batch_size == 100,
            c.processor_parallelism == 4,
    {
        EventConfig { buffer_size: 10000, batch_size: 100, processor_parallelism: 4 }
    }
}

} // verus!
