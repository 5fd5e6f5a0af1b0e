use trajlog::pipeline::{
    reader_action, worker_action, ConfigError, IngestConfig, ReaderAction, WorkerAction,
};

#[test]
fn worker_decodes_whatever_it_takes() {
    assert_eq!(worker_action(false, true), WorkerAction::Decode);
    assert_eq!(worker_action(true, true), WorkerAction::Decode);
}

#[test]
fn worker_finishes_only_after_seeing_done_before_an_empty_probe() {
    assert_eq!(worker_action(true, false), WorkerAction::Finish);
    assert_eq!(worker_action(false, false), WorkerAction::Wait);
}

#[test]
fn reader_backs_off_on_full_buffer() {
    assert_eq!(reader_action(true, true), ReaderAction::Backoff);
    assert_eq!(reader_action(true, false), ReaderAction::Push);
    assert_eq!(reader_action(false, true), ReaderAction::Complete);
    assert_eq!(reader_action(false, false), ReaderAction::Complete);
}

#[test]
fn config_needs_workers_and_room() {
    assert_eq!(IngestConfig::new(0, 64), Err(ConfigError::NoWorkers));
    assert_eq!(IngestConfig::new(8, 0), Err(ConfigError::NoBufferCapacity));
    assert_eq!(
        IngestConfig::new(1, 64),
        Ok(IngestConfig { workers: 1, buffer_capacity: 64 })
    );
    let d = IngestConfig::default_config();
    assert_eq!((d.workers, d.buffer_capacity), (8, 64));
}
