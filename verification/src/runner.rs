//! The event machine at the heart of the collector.  Each event the
//! host's loop observes — the backoff elapsing, the debounced change
//! signal, a rotation deadline, the uploader appearing or leaving,
//! shutdown — is handed here, and the machine answers with the file
//! operations to perform, and possibly a record to hand the uploader.
//! All waiting, reading and writing stays with the host.

use vstd::prelude::*;
use crate::backoff::BackoffFileOp;
use crate::collector::Collector;
use crate::identity::{wrap_inc, RecordId};
use crate::store::{
    is_record_body, is_upload_pick, oldest_non_current_record, record_name_text, Store,
    StoredRecord, RECORD_VERSION,
};

verus! {

/// The uploader's side went away before answering.
#[derive(Clone, Copy, PartialEq, Eq, Structural, Debug)]
pub enum RecordProcessorError {
    CxxDisconnected,
}

/// What can go wrong around an event, short of the uploader vanishing.
/// The event machine itself reports only the first two; `FileAccess`
/// names a host-side file operation that failed.
#[derive(Clone, Copy, PartialEq, Eq, Structural, Debug)]
pub enum RunnerIoError {
    TimeOutOfRange,
    EncryptFailed,
    FileAccess,
}

/// Why the runner stops with an error.
#[derive(Clone, Copy, PartialEq, Eq, Structural, Debug)]
pub enum MetricsRunnerError {
    RecordProcessor(RecordProcessorError),
    Io(RunnerIoError),
}

/// One wakeup of the runner.
#[derive(Debug)]
pub enum Event {
    /// The backoff elapsed while an uploader is present.  `loaded`
    /// carries a fresh directory load when the handler asked for one
    /// through `needs_records`.
    ProcessOneRecord { loaded: Option<Vec<StoredRecord>> },
    /// The debounced change signal fired.
    MetricsModified { metrics_enabled: bool },
    /// The current hour ended.
    IncrementRecordNumber { metrics_enabled: bool },
    /// The current week ended.
    RotateDeviceId { metrics_enabled: bool },
    /// The host disabled uploading.
    Purge,
    /// The host is shutting down.
    Exit { metrics_enabled: bool },
}

/// A file operation the host performs after an event.
#[derive(Debug)]
pub enum Action {
    WriteDeviceIdFile(Vec<u8>),
    WriteRecordNumberFile(Vec<u8>),
    WriteBackoffFile(Vec<u8>),
    DeleteBackoffFile,
    WriteRecord { name: Vec<u8>, content: Vec<u8> },
    DeleteRecord { name: Vec<u8> },
    DeleteAllRecords,
}

/// A record to hand to the uploader.
#[derive(Debug)]
pub struct UploadRequest {
    pub name: Vec<u8>,
    pub content: Vec<u8>,
}

/// Whether the loop goes on.
#[derive(Clone, Copy, PartialEq, Eq, Structural, Debug)]
pub enum EventResult {
    Continue,
    Break,
}

/// Everything one event asks of the host.
#[derive(Debug)]
pub struct EventOutcome {
    pub result: EventResult,
    pub actions: Vec<Action>,
    pub upload: Option<UploadRequest>,
}

/// A verified byte copy, so a cached record can be handed out while
/// the cache keeps it.
fn copy_bytes(v: &Vec<u8>) -> (r: Vec<u8>)
    ensures
        r@ == v@,
{
    let mut out: Vec<u8> = Vec::new();
    let n = v.len();
    let mut i: usize = 0;
    while i < n
        invariant
            n == v@.len(),
            0 <= i <= n,
            out@ =~= v@.subrange(0, i as int),
        decreases n - i,
    {
        out.push(*vstd::std_specs::vec::vec_index(v, i));
        proof {
            assert(out@ =~= v@.subrange(0, i as int + 1));
        }
        i = i + 1;
    }
    proof {
        assert(v@.subrange(0, n as int) =~= v@);
    }
    out
}

/// Collect and, if anything accrued, seal a record for the current
/// identity; always resume the backoff, because the pause may have
/// been owed to the one stored record being current, which a write or
/// an identity move ends.
fn store_record(store: &mut Store, collector: &mut Collector, now_ms: u64) -> (r: Result<
    Option<(Vec<u8>, Vec<u8>)>,
    MetricsRunnerError,
>)
    requires
        old(store).wf(),
        old(collector).wf(),
        old(collector).bootstraps_spec().v4_spec().len() <= u32::MAX,
        old(collector).bootstraps_spec().v6_spec().len() <= u32::MAX,
    ensures
        final(store).record_id == old(store).record_id,
        final(store).encryption_key == old(store).encryption_key,
        final(store).wf(),
        !final(store).backoff.stopped,
        final(store).backoff.state == old(store).backoff.state,
        final(store).backoff.persisted == old(store).backoff.persisted,
        match r {
            Ok(w) => {
                &&& final(collector).wf()
                &&& final(collector).bootstraps_spec() == old(collector).bootstraps_spec()
                &&& (w is Some <==> old(collector).has_new_data_spec())
                &&& !final(collector).has_new_data_spec()
                &&& match w {
                    Some(p) => {
                        &&& p.0@ == record_name_text(
                            RECORD_VERSION,
                            old(store).record_id.current_spec(),
                        )
                        &&& is_record_body(p.1@)
                        &&& crate::store::body_created(p.1@) == now_ms
                        &&& crate::store::body_ciphertext(p.1@).len() == expected_payload(
                            *old(store),
                            *old(collector),
                        ).len() + 48
                    },
                    None => *final(collector) == *old(collector),
                }
            },
            Err(e) => {
                // Only the seal of accrued data can fail.
                &&& e == MetricsRunnerError::Io(RunnerIoError::EncryptFailed)
                &&& old(collector).has_new_data_spec()
                &&& final(collector).wf()
                &&& !final(collector).has_new_data_spec()
                &&& final(collector).bootstraps_spec() == old(collector).bootstraps_spec()
            },
        },
{
    let week = store.record_id.device_id().interval();
    let hour = store.record_id.sequence_number().interval();
    let payload = collector.collect(&week, &hour);
    store.backoff.resume();
    match payload {
        Some(data) => {
            match store.store_record(&data, now_ms) {
                Ok((name, body)) => Ok(Some((name, body))),
                Err(_) => Err(MetricsRunnerError::Io(RunnerIoError::EncryptFailed)),
            }
        },
        None => Ok(None),
    }
}

/// The payload one collection of this collector seals, under the
/// store's current intervals.
pub open spec fn expected_payload(store: Store, collector: Collector) -> Seq<u8> {
    crate::payload::payload_bytes(
        collector.os_spec(),
        store.record_id.device_id_spec().interval_spec().iso_year,
        store.record_id.device_id_spec().interval_spec().iso_week,
        store.record_id.sequence_number_spec().interval_spec().weekday1,
        store.record_id.sequence_number_spec().interval_spec().hour,
        collector.bridge_spec().transfer_injector_to_client,
        collector.bridge_spec().transfer_client_to_injector,
        collector.bootstraps_spec().v4_spec(),
        collector.bootstraps_spec().v6_spec(),
        collector.requests_spec().summary_spec(),
        collector.aux_spec().entries_spec(),
    )
}

/// The records a load handed to the event, as a sequence.
pub open spec fn loaded_view(loaded: Option<Vec<StoredRecord>>) -> Seq<StoredRecord> {
    match loaded {
        Some(v) => v@,
        None => Seq::empty(),
    }
}

/// Whatever one event hands to the uploader is the cached candidate,
/// and never the current identity's record.
pub open spec fn upload_is_non_current(
    outcome: EventOutcome,
    handler: EventHandler,
    current: RecordId,
) -> bool {
    outcome.upload matches Some(u) ==> (handler.oldest_record matches Some(rec) && rec.id
        != current && u.name@ == rec.name@ && u.content@ == rec.content@)
}

/// The runner's state across events: the cached candidate for the next
/// upload, when one is known.
pub struct EventHandler {
    pub oldest_record: Option<StoredRecord>,
}

impl EventHandler {
    pub fn new() -> (r: EventHandler)
        ensures
            r.oldest_record is None,
    {
        EventHandler { oldest_record: None }
    }

    /// Must the host load the records directory before the next
    /// `ProcessOneRecord`?
    pub fn needs_records(&self) -> (r: bool)
        ensures
            r == (self.oldest_record is None),
    {
        match &self.oldest_record {
            None => true,
            Some(_) => false,
        }
    }

    /// Handle one event.  The outcome lists the file operations owed,
    /// whether the loop goes on, and the record to hand the uploader,
    /// if one is due.
    #[verifier::rlimit(100)]
    #[verifier::spinoff_prover]
    pub fn process_event(
        &mut self,
        event: Event,
        store: &mut Store,
        collector: &mut Collector,
        now_ms: u64,
    ) -> (r: Result<EventOutcome, MetricsRunnerError>)
        requires
            old(store).wf(),
            old(collector).wf(),
            old(collector).bootstraps_spec().v4_spec().len() <= u32::MAX,
            old(collector).bootstraps_spec().v6_spec().len() <= u32::MAX,
        ensures
            // Without a collection in front of it, advancing the sequence
            // number fails exactly when the clock reads past the supported
            // calendar range.
            (event matches Event::IncrementRecordNumber { metrics_enabled } && !metrics_enabled)
                ==> ((r is Err) <==> (now_ms as int / crate::DAY_MS as int)
                >= crate::calendar::day_limit()),
            (event matches Event::RotateDeviceId { metrics_enabled } && !metrics_enabled) ==> ((
            r is Err) <==> crate::period::WholeWeek::out_of_range(now_ms)),
            // Handing out a record, purging, and the no-uploader cases
            // cannot fail.
            (event is ProcessOneRecord) ==> r is Ok,
            (event is Purge) ==> r is Ok,
            (event matches Event::MetricsModified { metrics_enabled } && !metrics_enabled) ==> r
                is Ok,
            (event matches Event::Exit { metrics_enabled } && !metrics_enabled) ==> r is Ok,
            // With nothing accrued there is nothing to seal, so the only
            // outside call is skipped: writing events succeed, and the
            // identity moves fail exactly on an out-of-range clock.
            (event matches Event::MetricsModified { metrics_enabled } && metrics_enabled && !old(
                collector,
            ).has_new_data_spec()) ==> r is Ok,
            (event matches Event::Exit { metrics_enabled } && metrics_enabled && !old(
                collector,
            ).has_new_data_spec()) ==> r is Ok,
            (event matches Event::IncrementRecordNumber { metrics_enabled } && metrics_enabled
                && !old(collector).has_new_data_spec()) ==> ((r is Err) <==> (now_ms as int
                / crate::DAY_MS as int) >= crate::calendar::day_limit()),
            (event matches Event::RotateDeviceId { metrics_enabled } && metrics_enabled && !old(
                collector,
            ).has_new_data_spec()) ==> ((r is Err)
                <==> crate::period::WholeWeek::out_of_range(now_ms)),
            // An error names its cause: a clock past the calendar range
            // while moving the identity, or a failed seal of accrued
            // data.  Nothing else fails.
            r matches Err(e) ==> (e == MetricsRunnerError::Io(RunnerIoError::TimeOutOfRange) || e
                == MetricsRunnerError::Io(RunnerIoError::EncryptFailed)),
            r == Err::<EventOutcome, MetricsRunnerError>(
                MetricsRunnerError::Io(RunnerIoError::EncryptFailed),
            ) ==> old(collector).has_new_data_spec(),
            r == Err::<EventOutcome, MetricsRunnerError>(
                MetricsRunnerError::Io(RunnerIoError::TimeOutOfRange),
            ) ==> ((event matches Event::IncrementRecordNumber { metrics_enabled } && (now_ms as int
                / crate::DAY_MS as int) >= crate::calendar::day_limit()) || (
            event matches Event::RotateDeviceId { metrics_enabled }
                && crate::period::WholeWeek::out_of_range(now_ms))),
            // The collector's tables never grow across an event, so a
            // caller can chain events under the same bounds.
            final(collector).bootstraps_spec().v4_spec().len() <= old(
                collector,
            ).bootstraps_spec().v4_spec().len(),
            final(collector).bootstraps_spec().v6_spec().len() <= old(
                collector,
            ).bootstraps_spec().v6_spec().len(),
            match r {
                Ok(outcome) => {
                    &&& final(store).wf()
                    &&& final(collector).wf()
                    &&& match event {
                        Event::ProcessOneRecord { loaded } => {
                            let records = loaded_view(loaded);
                            let current = old(store).record_id.current_spec();
                            &&& final(store).record_id == old(store).record_id
                            &&& *final(collector) == *old(collector)
                            &&& outcome.result is Continue
                            &&& outcome.actions@.len() == 0
                            &&& match old(self).oldest_record {
                                Some(rec) => if rec.id != current {
                                    // The cached candidate is handed out
                                    // again, unchanged.
                                    &&& outcome.upload is Some
                                    &&& *final(self) == *old(self)
                                    &&& final(store).backoff == old(store).backoff
                                } else {
                                    // The cached candidate has become the
                                    // current record; it may not be
                                    // uploaded.  It is dropped and the
                                    // backoff pauses until something
                                    // changes.
                                    &&& outcome.upload is None
                                    &&& final(self).oldest_record is None
                                    &&& final(store).backoff.stopped
                                    &&& final(store).backoff.state == old(store).backoff.state
                                    &&& final(store).backoff.persisted == old(store).backoff.persisted
                                },
                                None => if exists|i: int|
                                    #[trigger] is_upload_pick(records, current, i) {
                                    // A fresh selection: the oldest record
                                    // of another identity is cached and
                                    // handed out.
                                    &&& exists|i: int|
                                        #[trigger] is_upload_pick(records, current, i) && (
                                        final(self).oldest_record matches Some(rec) && rec
                                            == records[i])
                                    &&& outcome.upload is Some
                                    &&& final(store).backoff == old(store).backoff
                                } else {
                                    // Every record belongs to the current
                                    // identity, or none exist: nothing is
                                    // uploaded and the backoff pauses
                                    // until something changes.
                                    &&& outcome.upload is None
                                    &&& final(self).oldest_record is None
                                    &&& final(store).backoff.stopped
                                    &&& final(store).backoff.state == old(store).backoff.state
                                    &&& final(store).backoff.persisted == old(store).backoff.persisted
                                },
                            }
                            // Whatever is handed out is never the current
                            // record.
                            &&& upload_is_non_current(outcome, *final(self), current)
                        },
                        Event::MetricsModified { metrics_enabled } => {
                            &&& outcome.result is Continue
                            &&& outcome.upload is None
                            &&& *final(self) == *old(self)
                            &&& final(store).record_id == old(store).record_id
                            &&& if metrics_enabled {
                                // A record file appears exactly when the
                                // collector held new data, under the
                                // current identity; and the backoff runs
                                // again.
                                &&& !final(store).backoff.stopped
                                &&& !final(collector).has_new_data_spec()
                                &&& outcome.actions@.len() == (if old(collector).has_new_data_spec() {
                                    1int
                                } else {
                                    0int
                                })
                                &&& old(collector).has_new_data_spec() ==> (outcome.actions@[0]
                                    matches Action::WriteRecord { name, content } && name@
                                    == record_name_text(
                                    RECORD_VERSION,
                                    old(store).record_id.current_spec(),
                                ) && is_record_body(content@) && crate::store::body_created(
                                    content@,
                                ) == now_ms && crate::store::body_ciphertext(content@).len()
                                    == expected_payload(*old(store), *old(collector)).len() + 48)
                            } else {
                                &&& *final(store) == *old(store)
                                &&& *final(collector) == *old(collector)
                                &&& outcome.actions@.len() == 0
                            }
                        },
                        Event::IncrementRecordNumber { metrics_enabled } => {
                            // The device identifier is untouched and the
                            // sequence number moves to its successor;
                            // what had accrued was first written under
                            // the old identity.
                            &&& outcome.upload is None
                            &&& outcome.result is Continue
                            &&& *final(self) == *old(self)
                            &&& final(store).record_id.current_spec().device_id == old(store).record_id.current_spec().device_id
                            &&& final(store).record_id.current_spec().sequence_number == wrap_inc(
                                old(store).record_id.current_spec().sequence_number,
                            )
                            &&& final(store).record_id.current_spec().sequence_number != old(store).record_id.current_spec().sequence_number
                            &&& !final(collector).has_new_data_spec()
                            &&& metrics_enabled ==> !final(store).backoff.stopped
                            // The new sequence number is written back; a
                            // record under the old identity comes first
                            // when anything had accrued.
                            &&& outcome.actions@.len() == (if metrics_enabled && old(collector).has_new_data_spec() {
                                2int
                            } else {
                                1int
                            })
                            &&& (outcome.actions@.last() matches Action::WriteRecordNumberFile(b)
                                && crate::identity::is_number_file(b@)
                                && crate::identity::number_file_value(b@) == final(store).record_id.current_spec().sequence_number)
                            &&& (metrics_enabled && old(collector).has_new_data_spec()) ==> (
                            outcome.actions@[0] matches Action::WriteRecord { name, content }
                                && name@ == record_name_text(
                                RECORD_VERSION,
                                old(store).record_id.current_spec(),
                            ) && is_record_body(content@) && crate::store::body_created(content@)
                                == now_ms && crate::store::body_ciphertext(content@).len()
                                == expected_payload(*old(store), *old(collector)).len() + 48)
                        },
                        Event::RotateDeviceId { metrics_enabled } => {
                            // The sequence number restarts at zero and
                            // the collector reports nothing to persist.
                            &&& outcome.upload is None
                            &&& outcome.result is Continue
                            &&& *final(self) == *old(self)
                            &&& final(store).record_id.current_spec().sequence_number == 0
                            &&& !final(collector).has_new_data_spec()
                            &&& metrics_enabled ==> !final(store).backoff.stopped
                            // The fresh identifier and the zeroed sequence
                            // number are written back; a record under the
                            // old identity comes first when anything had
                            // accrued.
                            &&& outcome.actions@.len() == (if metrics_enabled && old(collector).has_new_data_spec() {
                                3int
                            } else {
                                2int
                            })
                            &&& (outcome.actions@[outcome.actions@.len() - 2] matches
                                Action::WriteDeviceIdFile(b) && crate::identity::is_device_file(b@)
                                && crate::identity::device_file_value(b@) == final(store).record_id.current_spec().device_id)
                            &&& (outcome.actions@.last() matches Action::WriteRecordNumberFile(b)
                                && crate::identity::is_number_file(b@)
                                && crate::identity::number_file_value(b@) == 0)
                            &&& (metrics_enabled && old(collector).has_new_data_spec()) ==> (
                            outcome.actions@[0] matches Action::WriteRecord { name, content }
                                && name@ == record_name_text(
                                RECORD_VERSION,
                                old(store).record_id.current_spec(),
                            ) && is_record_body(content@) && crate::store::body_created(content@)
                                == now_ms && crate::store::body_ciphertext(content@).len()
                                == expected_payload(*old(store), *old(collector)).len() + 48)
                        },
                        Event::Purge => {
                            &&& outcome.result is Continue
                            &&& outcome.upload is None
                            &&& outcome.actions@.len() == 1
                            &&& outcome.actions@[0] is DeleteAllRecords
                            &&& *final(store) == *old(store)
                            &&& *final(collector) == *old(collector)
                            &&& *final(self) == *old(self)
                        },
                        Event::Exit { metrics_enabled } => {
                            &&& outcome.result is Break
                            &&& outcome.upload is None
                            &&& *final(self) == *old(self)
                            &&& final(store).record_id == old(store).record_id
                            &&& if metrics_enabled {
                                &&& !final(collector).has_new_data_spec()
                                &&& outcome.actions@.len() == (if old(collector).has_new_data_spec() {
                                    1int
                                } else {
                                    0int
                                })
                                &&& old(collector).has_new_data_spec() ==> (outcome.actions@[0]
                                    matches Action::WriteRecord { name, content } && name@
                                    == record_name_text(
                                    RECORD_VERSION,
                                    old(store).record_id.current_spec(),
                                ))
                            } else {
                                &&& *final(store) == *old(store)
                                &&& *final(collector) == *old(collector)
                                &&& outcome.actions@.len() == 0
                            }
                        },
                    }
                },
                Err(_) => {
                    // A failed event leaves the machine consistent: the
                    // identity, the cache and the persisted backoff state
                    // are as they were (only the stopped flag may have
                    // been lowered by a collection's resume).
                    &&& final(store).wf()
                    &&& final(collector).wf()
                    &&& *final(self) == *old(self)
                    &&& final(store).record_id == old(store).record_id
                    &&& final(store).encryption_key == old(store).encryption_key
                    &&& final(store).backoff.state == old(store).backoff.state
                    &&& final(store).backoff.persisted == old(store).backoff.persisted
                },
            },
    {
        match event {
            Event::ProcessOneRecord { loaded } => {
                let ghost records_v: Seq<StoredRecord> = loaded_view(loaded);
                let ghost had_cache = self.oldest_record is Some;
                let current = store.current_record_id();
                if self.needs_records() {
                    let records: Vec<StoredRecord> = match loaded {
                        Some(r) => r,
                        None => Vec::new(),
                    };
                    proof {
                        assert(records@ =~= records_v);
                    }
                    match oldest_non_current_record(&records, current) {
                        Some(i) => {
                            proof {
                                assert(is_upload_pick(records_v, current, i as int));
                            }
                            let mut records = records;
                            let picked = take_record(&mut records, i);
                            self.oldest_record = Some(picked);
                            proof {
                                let gi = i as int;
                                assert(exists|k: int|
                                    #[trigger] is_upload_pick(records_v, current, k) && (
                                    self.oldest_record matches Some(rec) && rec
                                        == records_v[k])) by {
                                    assert(is_upload_pick(records_v, current, gi) && (
                                    self.oldest_record matches Some(rec) && rec
                                        == records_v[gi]));
                                }
                            }
                        },
                        None => {
                            proof {
                                assert forall|k: int| !(#[trigger] is_upload_pick(
                                    records_v,
                                    current,
                                    k,
                                )) by {
                                    if 0 <= k < records_v.len() {
                                        assert(records@[k].id == current);
                                    }
                                }
                            }
                        },
                    }
                }
                match &self.oldest_record {
                    Some(record) => {
                        if record.id != current {
                            let name = copy_bytes(&record.name);
                            let content = copy_bytes(&record.content);
                            proof {
                                if !had_cache {
                                    assert(exists|i: int|
                                        #[trigger] is_upload_pick(records_v, current, i));
                                }
                            }
                            return Ok(
                                EventOutcome {
                                    result: EventResult::Continue,
                                    actions: Vec::new(),
                                    upload: Some(UploadRequest { name, content }),
                                },
                            );
                        }
                    },
                    None => {},
                }
                // No candidate, or the candidate has become the current
                // record: pause until something changes.
                self.oldest_record = None;
                store.backoff.stop();
                Ok(
                    EventOutcome {
                        result: EventResult::Continue,
                        actions: Vec::new(),
                        upload: None,
                    },
                )
            },
            Event::MetricsModified { metrics_enabled } => {
                let mut actions: Vec<Action> = Vec::new();
                if metrics_enabled {
                    match store_record(store, collector, now_ms) {
                        Ok(Some((name, content))) => {
                            actions.push(Action::WriteRecord { name, content });
                        },
                        Ok(None) => {},
                        Err(e) => {
                            return Err(e);
                        },
                    }
                }
                Ok(
                    EventOutcome {
                        result: EventResult::Continue,
                        actions,
                        upload: None,
                    },
                )
            },
            Event::IncrementRecordNumber { metrics_enabled } => {
                let mut actions: Vec<Action> = Vec::new();
                if metrics_enabled {
                    match store_record(store, collector, now_ms) {
                        Ok(Some((name, content))) => {
                            actions.push(Action::WriteRecord { name, content });
                        },
                        Ok(None) => {},
                        Err(e) => {
                            return Err(e);
                        },
                    }
                }
                let number_write = match store.record_id.increment(now_ms) {
                    Ok(w) => w,
                    Err(_) => {
                        return Err(MetricsRunnerError::Io(RunnerIoError::TimeOutOfRange));
                    },
                };
                actions.push(Action::WriteRecordNumberFile(number_write));
                let ghost pre_collector = *collector;
                collector.on_record_sequence_number_changed();
                proof {
                    crate::bootstrap::lemma_keep_started_le(
                        pre_collector.bootstraps_spec().v4_spec(),
                    );
                    crate::bootstrap::lemma_keep_started_le(
                        pre_collector.bootstraps_spec().v6_spec(),
                    );
                }
                Ok(
                    EventOutcome {
                        result: EventResult::Continue,
                        actions,
                        upload: None,
                    },
                )
            },
            Event::RotateDeviceId { metrics_enabled } => {
                let mut actions: Vec<Action> = Vec::new();
                if metrics_enabled {
                    match store_record(store, collector, now_ms) {
                        Ok(Some((name, content))) => {
                            actions.push(Action::WriteRecord { name, content });
                        },
                        Ok(None) => {},
                        Err(e) => {
                            return Err(e);
                        },
                    }
                }
                let (device_write, number_write) = match store.record_id.rotate(now_ms) {
                    Ok(w) => w,
                    Err(_) => {
                        return Err(MetricsRunnerError::Io(RunnerIoError::TimeOutOfRange));
                    },
                };
                actions.push(Action::WriteDeviceIdFile(device_write));
                actions.push(Action::WriteRecordNumberFile(number_write));
                collector.on_device_id_changed();
                Ok(
                    EventOutcome {
                        result: EventResult::Continue,
                        actions,
                        upload: None,
                    },
                )
            },
            Event::Purge => {
                let mut actions: Vec<Action> = Vec::new();
                actions.push(Action::DeleteAllRecords);
                Ok(EventOutcome { result: EventResult::Continue, actions, upload: None })
            },
            Event::Exit { metrics_enabled } => {
                let mut actions: Vec<Action> = Vec::new();
                if metrics_enabled {
                    match store_record(store, collector, now_ms) {
                        Ok(Some((name, content))) => {
                            actions.push(Action::WriteRecord { name, content });
                        },
                        Ok(None) => {},
                        Err(e) => {
                            return Err(e);
                        },
                    }
                }
                Ok(EventOutcome { result: EventResult::Break, actions, upload: None })
            },
        }
    }

    /// The uploader answered for the record handed out by the last
    /// `ProcessOneRecord`.  Acceptance clears the backoff, deletes the
    /// record file and drops the cache; refusal advances the backoff
    /// and keeps the candidate for the next try.
    pub fn on_upload_result(&mut self, store: &mut Store, success: bool, now_ms: u64) -> (r:
        Result<Vec<Action>, MetricsRunnerError>)
        ensures
            // Only stamping a refusal can fail, and only on a clock past
            // the supported calendar range.
            (old(self).oldest_record is None || success) ==> r is Ok,
            (old(self).oldest_record is Some && !success) ==> ((r is Err) <==> (now_ms as int
                / crate::DAY_MS as int) >= crate::calendar::day_limit()),
            match r {
                Ok(actions) => {
                    &&& final(store).record_id == old(store).record_id
                    &&& final(store).encryption_key == old(store).encryption_key
                    &&& if old(self).oldest_record is None {
                        // No upload was in flight; nothing happens.
                        &&& *final(self) == *old(self)
                        &&& *final(store) == *old(store)
                        &&& actions@.len() == 0
                    } else if success {
                        // The backoff file is gone and so are the
                        // record file and the cache.
                        &&& final(store).backoff.state is Success
                        &&& final(store).backoff.persisted is None
                        &&& final(self).oldest_record is None
                        &&& actions@.len() == 2
                        &&& actions@[0] is DeleteBackoffFile
                        &&& actions@[1] matches Action::DeleteRecord { name } && old(self).oldest_record matches Some(rec) && name@ == rec.name@
                    } else {
                        // The backoff file records one more failure,
                        // stamped with the present moment, the count
                        // advanced by one (saturating) past the previous
                        // failure, or starting at zero after a success.
                        let count = match old(store).backoff.state {
                            crate::backoff::State::Success => 0u32,
                            crate::backoff::State::Failure(g) => if g.prev_failure_count
                                < u32::MAX {
                                (g.prev_failure_count + 1) as u32
                            } else {
                                u32::MAX
                            },
                        };
                        let f = crate::backoff::Failure { at_ms: now_ms, prev_failure_count: count };
                        &&& final(store).backoff.state == crate::backoff::State::Failure(f)
                        &&& final(store).backoff.persisted == Some(f)
                        &&& *final(self) == *old(self)
                        &&& actions@.len() == 1
                        &&& (actions@[0] matches Action::WriteBackoffFile(bytes)
                            && crate::backoff::is_backoff_file(bytes@)
                            && crate::backoff::backoff_file_failure(bytes@) == f)
                    }
                },
                Err(_) => *final(self) == *old(self) && *final(store) == *old(store),
            },
    {
        let mut actions: Vec<Action> = Vec::new();
        match &self.oldest_record {
            None => Ok(actions),
            Some(record) => {
                if success {
                    match store.backoff.succeeded() {
                        BackoffFileOp::Delete => actions.push(Action::DeleteBackoffFile),
                        BackoffFileOp::Write(_) => {},
                    }
                    let name = copy_bytes(&record.name);
                    actions.push(Action::DeleteRecord { name });
                    self.oldest_record = None;
                    Ok(actions)
                } else {
                    if !crate::calendar::timestamp_in_range(now_ms) {
                        return Err(MetricsRunnerError::Io(RunnerIoError::TimeOutOfRange));
                    }
                    match store.backoff.failed(now_ms) {
                        BackoffFileOp::Write(bytes) => actions.push(
                            Action::WriteBackoffFile(bytes),
                        ),
                        BackoffFileOp::Delete => {},
                    }
                    Ok(actions)
                }
            },
        }
    }
}

/// Take element `i` out of the records, discarding the order of the rest.
fn take_record(records: &mut Vec<StoredRecord>, i: usize) -> (r: StoredRecord)
    requires
        i < old(records)@.len(),
    ensures
        r == old(records)@[i as int],
{
    records.swap_remove(i)
}

} // verus!
