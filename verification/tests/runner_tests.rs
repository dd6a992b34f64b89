//! The event machine, driven over an in-memory record directory that
//! applies the actions the machine asks for.

use ouinet_metrics::collector::Collector;
use ouinet_metrics::crypto::PublicKey;
use ouinet_metrics::identity::RecordId;
use ouinet_metrics::runner::{
    Action, Event, EventHandler, EventResult, MetricsRunnerError, RunnerIoError,
};
use ouinet_metrics::store::{
    build_record_name, encode_record_body, load_stored_records, RecordFileInput, Store,
};

struct Setup {
    disk: Vec<(Vec<u8>, Vec<u8>)>,
    handler: EventHandler,
    store: Store,
    metrics: Collector,
    now_ms: u64,
}

impl Setup {
    fn new() -> Self {
        let key = PublicKey::from_bytes(vec![0x42; 32]).unwrap();
        let now_ms: u64 = 20_256 * 86_400_000;
        let (store, _ops) = Store::new(key, None, None, None, now_ms).unwrap();
        Setup {
            disk: Vec::new(),
            handler: EventHandler::new(),
            store: store,
            metrics: Collector::new("test-os".to_string()),
            now_ms,
        }
    }

    fn apply(&mut self, actions: Vec<Action>) {
        for action in actions {
            match action {
                Action::WriteRecord { name, content } => {
                    self.disk.retain(|(n, _)| *n != name);
                    self.disk.push((name, content));
                },
                Action::DeleteRecord { name } => {
                    self.disk.retain(|(n, _)| *n != name);
                },
                Action::DeleteAllRecords => self.disk.clear(),
                Action::WriteDeviceIdFile(_)
                | Action::WriteRecordNumberFile(_)
                | Action::WriteBackoffFile(_)
                | Action::DeleteBackoffFile => {},
            }
        }
    }

    fn loaded(&self) -> Vec<RecordFileInput> {
        self.disk
            .iter()
            .map(|(n, c)| RecordFileInput { name: n.clone(), content: c.clone() })
            .collect()
    }

    fn process(&mut self, event: Event) -> EventResult {
        // Each event is observed at a later moment, as on a live clock.
        self.now_ms += 1000;
        let outcome = self
            .handler
            .process_event(event, &mut self.store, &mut self.metrics, self.now_ms)
            .unwrap();
        self.apply(outcome.actions);
        if let Some(_upload) = outcome.upload {
            // Pass-through uploader: every record is accepted.
            let actions = self
                .handler
                .on_upload_result(&mut self.store, true, self.now_ms)
                .unwrap();
            self.apply(actions);
        }
        outcome.result
    }

    fn process_one_record(&mut self) -> EventResult {
        let loaded = if self.handler.needs_records() {
            let (records, _deletions) = load_stored_records(self.loaded(), self.now_ms);
            Some(records)
        } else {
            None
        };
        self.process(Event::ProcessOneRecord { loaded })
    }

    fn stored_record_ids(&self) -> Vec<RecordId> {
        let (records, _deletions) = load_stored_records(self.loaded(), self.now_ms);
        let mut ids: Vec<RecordId> = records.iter().map(|r| r.id).collect();
        ids.sort_by(|a, b| (a.device_id, a.sequence_number).cmp(&(b.device_id, b.sequence_number)));
        ids.dedup();
        ids
    }

    fn current_record_id(&self) -> RecordId {
        self.store.current_record_id()
    }

    fn modify_metrics_and_process(&mut self) {
        // Modifying metrics normally raises the debounced change signal;
        // there is no listener here, so the event is fed by hand.
        self.metrics.modify();
        self.process(Event::MetricsModified { metrics_enabled: true });
    }

    fn sorted(mut ids: Vec<RecordId>) -> Vec<RecordId> {
        ids.sort_by(|a, b| (a.device_id, a.sequence_number).cmp(&(b.device_id, b.sequence_number)));
        ids
    }
}

#[test]
fn event_processing() {
    let mut setup = Setup::new();

    let metrics_enabled = true;

    setup.process_one_record();

    assert!(setup.stored_record_ids().is_empty());

    let record0_id = setup.current_record_id();
    assert_eq!(record0_id.sequence_number, 0);

    setup.modify_metrics_and_process();

    // Check record is stored
    assert_eq!(setup.stored_record_ids(), Setup::sorted(vec![record0_id]));

    setup.modify_metrics_and_process();

    // Check record is stored still with the same id
    assert_eq!(setup.stored_record_ids(), Setup::sorted(vec![record0_id]));

    // Update record number within the record id
    setup.process(Event::IncrementRecordNumber { metrics_enabled });

    let record1_id = setup.current_record_id();

    assert_eq!(record0_id.device_id, record1_id.device_id);
    assert_ne!(record0_id.sequence_number, record1_id.sequence_number);

    // Metrics hasn't been modified yet, so no new record has been created
    assert_eq!(setup.stored_record_ids(), Setup::sorted(vec![record0_id]));

    setup.modify_metrics_and_process();

    // The new record should now be created
    assert_eq!(setup.stored_record_ids(), Setup::sorted(vec![record0_id, record1_id]));

    // Rotate device id
    setup.process(Event::RotateDeviceId { metrics_enabled });

    let record2_id = setup.current_record_id();

    assert_ne!(record1_id.device_id, record2_id.device_id);
    assert_eq!(record2_id.sequence_number, 0);

    // Nothing changes yet
    assert_eq!(setup.stored_record_ids(), Setup::sorted(vec![record0_id, record1_id]));

    setup.modify_metrics_and_process();

    // record2_id appears
    assert_eq!(
        setup.stored_record_ids(),
        Setup::sorted(vec![record0_id, record1_id, record2_id])
    );

    // -------------------
    // Process the records
    // -------------------
    setup.process_one_record();

    assert_eq!(setup.stored_record_ids(), Setup::sorted(vec![record1_id, record2_id]));

    setup.process_one_record();

    assert_eq!(setup.stored_record_ids(), Setup::sorted(vec![record2_id]));

    setup.process_one_record();

    // Not removed because record2_id is "current" (still being updated)
    assert_eq!(setup.stored_record_ids(), Setup::sorted(vec![record2_id]));

    // Rotate the current record id
    setup.process(Event::RotateDeviceId { metrics_enabled });

    // Process again, this time it should be removed
    setup.process_one_record();

    assert_eq!(setup.stored_record_ids(), Vec::new());
}

#[test]
fn resume_after_record_id_change_even_if_no_write() {
    let mut setup = Setup::new();

    // Modify metrics and store it on disk.
    setup.modify_metrics_and_process();

    // Try processing a record. This won't process anything because the one
    // stored record is "current". But because there is nothing to process it
    // should `stop` the processing timeout.
    setup.process_one_record();

    assert!(setup.store.backoff.is_stopped());

    // Nothing is written here because no modifications to metrics happened
    // since the last write, but we still want the backoff to be resumed.
    setup.process(Event::IncrementRecordNumber { metrics_enabled: true });

    assert!(!setup.store.backoff.is_stopped());
}

#[test]
fn delete_stored_records() {
    let mut setup = Setup::new();
    assert_eq!(setup.stored_record_ids().len(), 0);

    setup.modify_metrics_and_process();
    assert_eq!(setup.stored_record_ids().len(), 1);

    setup.process(Event::Purge);
    assert_eq!(setup.stored_record_ids().len(), 0);
}

#[test]
fn modified_event_without_new_data_writes_nothing() {
    let mut setup = Setup::new();
    setup.modify_metrics_and_process();
    assert_eq!(setup.stored_record_ids().len(), 1);
    // The signal fires again with nothing new: no write happens.
    let outcome = setup
        .handler
        .process_event(
            Event::MetricsModified { metrics_enabled: true },
            &mut setup.store,
            &mut setup.metrics,
            setup.now_ms,
        )
        .unwrap();
    assert_eq!(outcome.actions.len(), 0);
}

#[test]
fn failure_advances_backoff_and_success_clears_it() {
    let mut setup = Setup::new();
    setup.modify_metrics_and_process();
    setup.process(Event::IncrementRecordNumber { metrics_enabled: true });

    // One non-current record exists now; a failing uploader backs off.
    let loaded = {
        let (records, _d) = load_stored_records(setup.loaded(), setup.now_ms);
        Some(records)
    };
    let outcome = setup
        .handler
        .process_event(
            Event::ProcessOneRecord { loaded },
            &mut setup.store,
            &mut setup.metrics,
            setup.now_ms,
        )
        .unwrap();
    assert!(outcome.upload.is_some());

    let actions = setup.handler.on_upload_result(&mut setup.store, false, setup.now_ms).unwrap();
    assert!(matches!(actions[0], Action::WriteBackoffFile(_)));
    assert_eq!(setup.store.backoff.sleep_for(setup.now_ms).unwrap_duration(), 1000);

    let actions = setup.handler.on_upload_result(&mut setup.store, false, setup.now_ms).unwrap();
    assert!(matches!(actions[0], Action::WriteBackoffFile(_)));
    assert_eq!(setup.store.backoff.sleep_for(setup.now_ms).unwrap_duration(), 2000);

    let actions = setup.handler.on_upload_result(&mut setup.store, false, setup.now_ms).unwrap();
    assert!(matches!(actions[0], Action::WriteBackoffFile(_)));
    assert_eq!(setup.store.backoff.sleep_for(setup.now_ms).unwrap_duration(), 4000);

    let actions = setup.handler.on_upload_result(&mut setup.store, true, setup.now_ms).unwrap();
    assert!(matches!(actions[0], Action::DeleteBackoffFile));
    assert_eq!(setup.store.backoff.sleep_for(setup.now_ms).unwrap_duration(), 0);
}

#[test]
fn out_of_range_clock_stops_the_runner() {
    let mut setup = Setup::new();
    setup.now_ms = u64::MAX - 1;
    setup.metrics.modify();
    let err = setup
        .handler
        .process_event(
            Event::IncrementRecordNumber { metrics_enabled: false },
            &mut setup.store,
            &mut setup.metrics,
            setup.now_ms,
        )
        .unwrap_err();
    assert_eq!(err, MetricsRunnerError::Io(RunnerIoError::TimeOutOfRange));
}

#[test]
fn candidate_that_became_current_is_not_uploaded() {
    let mut setup = Setup::new();
    let device = setup.current_record_id().device_id;
    // A stale record of the same device, one sequence step ahead, as a
    // lost sequence-number file leaves behind.
    let ahead = RecordId { device_id: device, sequence_number: 1 };
    setup.disk.push((
        build_record_name(0, ahead),
        encode_record_body(setup.now_ms, b"stale".to_vec()),
    ));

    // Select it, but let the upload fail, so it stays the candidate.
    let loaded = {
        let (records, _d) = load_stored_records(setup.loaded(), setup.now_ms);
        Some(records)
    };
    let outcome = setup
        .handler
        .process_event(
            Event::ProcessOneRecord { loaded },
            &mut setup.store,
            &mut setup.metrics,
            setup.now_ms,
        )
        .unwrap();
    assert!(outcome.upload.is_some());
    setup.handler.on_upload_result(&mut setup.store, false, setup.now_ms).unwrap();

    // The identity advances onto the cached record's id.
    setup.process(Event::IncrementRecordNumber { metrics_enabled: true });
    assert_eq!(setup.current_record_id(), ahead);

    // The candidate is now the current record: it is dropped, nothing
    // is uploaded, and the backoff pauses.
    let outcome = setup
        .handler
        .process_event(
            Event::ProcessOneRecord { loaded: None },
            &mut setup.store,
            &mut setup.metrics,
            setup.now_ms,
        )
        .unwrap();
    assert!(outcome.upload.is_none());
    assert!(setup.handler.needs_records());
    assert!(setup.store.backoff.is_stopped());
}

#[test]
fn exit_writes_the_tail_record() {
    let mut setup = Setup::new();
    setup.metrics.modify();
    let result = setup.process(Event::Exit { metrics_enabled: true });
    assert_eq!(result, EventResult::Break);
    assert_eq!(setup.stored_record_ids(), vec![setup.current_record_id()]);
}

#[test]
fn exit_without_uploader_writes_nothing() {
    let mut setup = Setup::new();
    setup.metrics.modify();
    let result = setup.process(Event::Exit { metrics_enabled: false });
    assert_eq!(result, EventResult::Break);
    assert_eq!(setup.stored_record_ids().len(), 0);
}
