//! The decisions of the ingestion pipeline's threads, and its configuration.
//! Threads, the bounded buffer and the channel are the caller's; what each
//! thread does next is decided here.
use vstd::prelude::*;

verus! {

/// The command line: where the planner's logs are.
#[derive(Debug)]
pub struct Args {
    pub logs: String,
}

/// Default number of parser workers.
pub const DEFAULT_WORKERS: usize = 8;

/// Default capacity of the buffer between the reader and the workers.
pub const DEFAULT_BUFFER_CAPACITY: usize = 64;

/// Why a configuration cannot run.
#[derive(Clone, Copy, Debug, PartialEq, Eq, Structural)]
pub enum ConfigError {
    NoWorkers,
    NoBufferCapacity,
}

/// How the pipeline is set up.
#[derive(Clone, Copy, Debug, PartialEq, Eq, Structural)]
pub struct IngestConfig {
    pub workers: usize,
    pub buffer_capacity: usize,
}

impl IngestConfig {
    /// At least one worker and room for at least one record.
    pub open spec fn valid(self) -> bool {
        self.workers >= 1 && self.buffer_capacity >= 1
    }

    /// A configuration; fails without workers or without buffer room.
    pub fn new(workers: usize, buffer_capacity: usize) -> (r: Result<IngestConfig, ConfigError>)
        ensures
            workers == 0 ==> r == Err::<IngestConfig, ConfigError>(ConfigError::NoWorkers),
            workers > 0 && buffer_capacity == 0 ==> r == Err::<IngestConfig, ConfigError>(
                ConfigError::NoBufferCapacity,
            ),
            workers > 0 && buffer_capacity > 0 ==> r == Ok::<IngestConfig, ConfigError>(
                IngestConfig { workers, buffer_capacity },
            ),
    {
        if workers == 0 {
            Err(ConfigError::NoWorkers)
        } else if buffer_capacity == 0 {
            Err(ConfigError::NoBufferCapacity)
        } else {
            Ok(IngestConfig { workers, buffer_capacity })
        }
    }

    /// The default set-up.
    pub fn default_config() -> (r: IngestConfig)
        ensures
            r.valid(),
            r.workers == DEFAULT_WORKERS,
            r.buffer_capacity == DEFAULT_BUFFER_CAPACITY,
    {
        IngestConfig { workers: DEFAULT_WORKERS, buffer_capacity: DEFAULT_BUFFER_CAPACITY }
    }
}

/// What a parser worker does after probing the buffer.
#[derive(Clone, Copy, Debug, PartialEq, Eq, Structural)]
pub enum WorkerAction {
    /// Decode the record it took.
    Decode,
    /// Yield, then probe again.
    Wait,
    /// Stop: the reader is done and nothing is left.
    Finish,
}

/// The worker's decision. `done_before_probe` is the reader's completion flag
/// as read *before* the probe, and `took_record` whether the probe took a
/// record. The reader sets the flag only after its last push, so an empty
/// probe after the flag was seen set means that no record is still to come;
/// an empty probe before then never finishes the worker.
pub fn worker_action(done_before_probe: bool, took_record: bool) -> (r: WorkerAction)
    ensures
        took_record ==> r == WorkerAction::Decode,
        !took_record && done_before_probe ==> r == WorkerAction::Finish,
        !took_record && !done_before_probe ==> r == WorkerAction::Wait,
{
    if took_record {
        WorkerAction::Decode
    } else if done_before_probe {
        WorkerAction::Finish
    } else {
        WorkerAction::Wait
    }
}

/// What the reader does next.
#[derive(Clone, Copy, Debug, PartialEq, Eq, Structural)]
pub enum ReaderAction {
    /// Push the record it holds.
    Push,
    /// The buffer is full: sleep briefly, then push again.
    Backoff,
    /// The file is exhausted: set the completion flag and stop.
    Complete,
}

/// The reader's decision: with no record left it completes; with a record
/// and a full buffer it backs off, never overwriting an unread slot.
pub fn reader_action(has_record: bool, buffer_full: bool) -> (r: ReaderAction)
    ensures
        !has_record ==> r == ReaderAction::Complete,
        has_record && buffer_full ==> r == ReaderAction::Backoff,
        has_record && !buffer_full ==> r == ReaderAction::Push,
{
    if !has_record {
        ReaderAction::Complete
    } else if buffer_full {
        ReaderAction::Backoff
    } else {
        ReaderAction::Push
    }
}

} // verus!
