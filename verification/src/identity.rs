//! Record identity: a random 128-bit device identifier persisted with
//! its creation moment and rotated on calendar-week boundaries, and a
//! sequence number persisted as a bare decimal, advanced each hour and
//! once per process start, reset when the device identifier rotates.

use vstd::prelude::*;
use crate::encoding::{
    all_dec_digits, dec_bytes, dec_value, format_uuid, is_uuid_text, lemma_dec_bytes_digits,
    lemma_dec_roundtrip, lemma_uuid_roundtrip, parse_u32_dec, parse_uuid, u64_to_dec, uuid_text,
    uuid_text_value,
};
use crate::period::{duration_to_end, duration_to_end_spec, PeriodError, WholeHour, WholeWeek};
use crate::timestamp::{format_timestamp, is_timestamp_text, parse_timestamp, timestamp_value};
use crate::calendar::day_limit;
use crate::DAY_MS;

verus! {

/// The identity one record is attributed to.
#[derive(Clone, Copy, PartialEq, Eq, Structural, Hash, Debug)]
pub struct RecordId {
    pub device_id: u128,
    pub sequence_number: u32,
}

/// Text form of a record identity: the hyphenated identifier, an
/// underscore, and the decimal sequence number.
pub open spec fn record_id_text(id: RecordId) -> Seq<u8> {
    uuid_text(id.device_id as nat) + seq![95u8] + dec_bytes(id.sequence_number as nat)
}

impl RecordId {
    pub fn nil() -> (r: RecordId)
        ensures
            r == (RecordId { device_id: 0u128, sequence_number: 0u32 }),
    {
        RecordId { device_id: 0, sequence_number: 0 }
    }

    /// Print the identity's text form.
    pub fn text(&self) -> (r: Vec<u8>)
        ensures
            r@ == record_id_text(*self),
    {
        let mut out = format_uuid(self.device_id);
        out.push(95u8);
        let mut seq_part = u64_to_dec(self.sequence_number as u64);
        out.append(&mut seq_part);
        proof {
            assert(out@ =~= record_id_text(*self));
        }
        out
    }
}

/// Relies on uuid's `Uuid::new_v4`: a fresh random identifier, read out
/// as its 128-bit value.  The value is random, so nothing is promised
/// of it.
#[verifier::external_body]
fn generate_device_id() -> u128 {
    uuid::Uuid::new_v4().as_u128()
}

/// Where the timestamp field of a device file ends: the first
/// quotation mark past its opening.  Timestamp texts hold no
/// quotation mark, so the scan is exact.
pub open spec fn device_ts_end(s: Seq<u8>) -> int {
    crate::encoding::sep_at(s, 41, 34u8)
}

/// Shape of the persisted device-identifier file: a two-element JSON
/// array of the identifier text and the creation timestamp text.
pub open spec fn is_device_file(s: Seq<u8>) -> bool {
    &&& s.len() >= 63
    &&& s[0] == 91u8
    &&& s[1] == 34u8
    &&& is_uuid_text(s.subrange(2, 38))
    &&& s[38] == 34u8
    &&& s[39] == 44u8
    &&& s[40] == 34u8
    &&& device_ts_end(s) == s.len() - 2
    &&& is_timestamp_text(s.subrange(41, s.len() - 2))
    &&& s[s.len() - 1] == 93u8
}

/// The identifier a well-shaped device file records.
pub open spec fn device_file_value(s: Seq<u8>) -> u128 {
    uuid_text_value(s.subrange(2, 38)) as u128
}

/// The creation moment a well-shaped device file records.
pub open spec fn device_file_created(s: Seq<u8>) -> u64 {
    timestamp_value(s.subrange(41, s.len() - 2)) as u64
}

/// Print the persisted form of a device identifier and its creation
/// moment.
pub fn encode_device_file(value: u128, created_ms: u64) -> (r: Vec<u8>)
    requires
        (created_ms as int / DAY_MS as int) < day_limit(),
    ensures
        is_device_file(r@),
        device_file_value(r@) == value,
        device_file_created(r@) == created_ms,
{
    let mut out: Vec<u8> = Vec::new();
    out.push(91u8);
    out.push(34u8);
    let mut id_text = format_uuid(value);
    let ghost idv = id_text@;
    out.append(&mut id_text);
    out.push(34u8);
    out.push(44u8);
    out.push(34u8);
    let mut ts_text = format_timestamp(created_ms);
    let ghost tsv = ts_text@;
    out.append(&mut ts_text);
    out.push(34u8);
    out.push(93u8);
    proof {
        let s = out@;
        assert(s.subrange(2, 38) =~= idv);
        assert(s.subrange(41, s.len() - 2) =~= tsv);
        lemma_uuid_roundtrip(value);
        crate::timestamp::lemma_timestamp_no_quote(tsv);
        assert forall|j: int| 41 <= j < s.len() - 2 implies s[j] != 34u8 by {
            assert(s[j] == tsv[j - 41]);
        }
        crate::encoding::lemma_sep_at_found(s, 41, 34u8, s.len() - 2);
    }
    out
}

/// Read the persisted form back.  Succeeds exactly on well-shaped files.
pub fn parse_device_file(s: &[u8]) -> (r: Option<(u128, u64)>)
    ensures
        match r {
            Some(p) => is_device_file(s@) && p.0 == device_file_value(s@) && p.1
                == device_file_created(s@),
            None => !is_device_file(s@),
        },
{
    if s.len() < 63 {
        return None;
    }
    if !(s[0] == 91 && s[1] == 34 && s[38] == 34 && s[39] == 44 && s[40] == 34 && s[s.len() - 1]
        == 93) {
        return None;
    }
    let q = crate::encoding::find_sep(s, 41, 34u8);
    if q != s.len() - 2 {
        return None;
    }
    let value = match parse_uuid(vstd::slice::slice_subrange(s, 2, 38)) {
        Some(v) => v,
        None => {
            return None;
        },
    };
    let created = match parse_timestamp(vstd::slice::slice_subrange(s, 41, s.len() - 2)) {
        Some(v) => v,
        None => {
            return None;
        },
    };
    Some((value, created))
}

/// The persistent, weekly-rotated device identifier.
pub struct DeviceId {
    value: u128,
    created_ms: u64,
    interval: WholeWeek,
}

/// What the load decided about the file on disk.
pub open spec fn device_load_keeps(content: Option<Seq<u8>>, now_ms: u64) -> bool {
    match content {
        Some(b) => is_device_file(b) && !WholeWeek::out_of_range(device_file_created(b)) && ({
            // The stored identifier is kept exactly when the present
            // moment still falls in its creation week.
            let created = device_file_created(b);
            let day = created as int / DAY_MS as int;
            let start = crate::period::week_start_day(day) * (DAY_MS as int);
            start <= now_ms < start + crate::WEEK_MS
        }),
        None => false,
    }
}

impl DeviceId {
    pub closed spec fn value_spec(self) -> u128 {
        self.value
    }

    pub closed spec fn created_spec(self) -> u64 {
        self.created_ms
    }

    pub closed spec fn interval_spec(self) -> WholeWeek {
        self.interval
    }

    pub closed spec fn wf(self) -> bool {
        self.interval.wf() && self.interval.contains(self.created_ms)
    }

    /// Load the identifier from the file's content, or mint a fresh one
    /// when the file is absent, corrupt, or its week has passed.  The
    /// result reports the file write to perform (for a fresh value) and
    /// whether a corrupt file must be deleted.  Fails exactly when the
    /// stored creation moment, or the present moment where a fresh
    /// value is needed, lies outside the supported calendar range.
    pub fn new(content: Option<&Vec<u8>>, now_ms: u64) -> (r: Result<
        (DeviceId, Option<Vec<u8>>, bool),
        PeriodError,
    >)
        ensures
            (r is Err) <==> (match content {
                Some(b) => if is_device_file(b@) {
                    WholeWeek::out_of_range(device_file_created(b@)) || (!device_load_keeps(
                        Some(b@),
                        now_ms,
                    ) && WholeWeek::out_of_range(now_ms))
                } else {
                    WholeWeek::out_of_range(now_ms)
                },
                None => WholeWeek::out_of_range(now_ms),
            }),
            match r {
                Ok((dev, write, delete_corrupt)) => {
                    &&& dev.wf()
                    &&& delete_corrupt == (content is Some && !is_device_file(
                        content.unwrap()@,
                    ))
                    &&& if device_load_keeps(
                        match content {
                            Some(b) => Some(b@),
                            None => None,
                        },
                        now_ms,
                    ) {
                        &&& dev.value_spec() == device_file_value(content.unwrap()@)
                        &&& dev.created_spec() == device_file_created(content.unwrap()@)
                        &&& dev.interval_spec().start_ms as int == crate::period::week_start_day(
                            device_file_created(content.unwrap()@) as int / DAY_MS as int,
                        ) * (DAY_MS as int)
                        &&& write is None
                    } else {
                        &&& dev.created_spec() == now_ms
                        &&& dev.interval_spec().contains(now_ms)
                        &&& dev.interval_spec().start_ms as int == crate::period::week_start_day(
                            now_ms as int / DAY_MS as int,
                        ) * (DAY_MS as int)
                        &&& match write {
                            Some(b) => is_device_file(b@) && device_file_value(b@)
                                == dev.value_spec() && device_file_created(b@) == now_ms,
                            None => false,
                        }
                    }
                },
                Err(_) => true,
            },
    {
        let parsed = match content {
            Some(bytes) => parse_device_file(bytes.as_slice()),
            None => None,
        };
        let delete_corrupt = content.is_some() && parsed.is_none();
        if let Some((value, created)) = parsed {
            let interval = match WholeWeek::of(created) {
                Ok(w) => w,
                Err(e) => {
                    return Err(e);
                },
            };
            if interval.start_ms <= now_ms && now_ms < interval.end_ms {
                return Ok((DeviceId { value, created_ms: created, interval }, None, delete_corrupt));
            }
            let fresh = generate_device_id();
            let interval = match WholeWeek::of(now_ms) {
                Ok(w) => w,
                Err(e) => {
                    return Err(e);
                },
            };
            let bytes = encode_device_file(fresh, now_ms);
            Ok((DeviceId { value: fresh, created_ms: now_ms, interval }, Some(bytes), delete_corrupt))
        } else {
            let fresh = generate_device_id();
            let interval = match WholeWeek::of(now_ms) {
                Ok(w) => w,
                Err(e) => {
                    return Err(e);
                },
            };
            let bytes = encode_device_file(fresh, now_ms);
            Ok((DeviceId { value: fresh, created_ms: now_ms, interval }, Some(bytes), delete_corrupt))
        }
    }

    pub fn get(&self) -> (r: u128)
        ensures
            r == self.value_spec(),
    {
        self.value
    }

    /// Replace the identifier with the given fresh value, created now.
    /// Returns the new file content to write.  Fails exactly when the
    /// present moment lies outside the supported calendar range.
    pub fn rotate_with(&mut self, now_ms: u64, fresh: u128) -> (r: Result<Vec<u8>, PeriodError>)
        ensures
            (r is Err) <==> WholeWeek::out_of_range(now_ms),
            match r {
                Ok(bytes) => {
                    &&& final(self).wf()
                    &&& final(self).value_spec() == fresh
                    &&& final(self).created_spec() == now_ms
                    &&& final(self).interval_spec().contains(now_ms)
                    &&& is_device_file(bytes@)
                    &&& device_file_value(bytes@) == fresh
                    &&& device_file_created(bytes@) == now_ms
                },
                Err(_) => *final(self) == *old(self),
            },
    {
        let interval = match WholeWeek::of(now_ms) {
            Ok(w) => w,
            Err(e) => {
                return Err(e);
            },
        };
        let bytes = encode_device_file(fresh, now_ms);
        self.value = fresh;
        self.created_ms = now_ms;
        self.interval = interval;
        Ok(bytes)
    }

    /// Replace the identifier with a freshly generated random value.
    pub fn rotate(&mut self, now_ms: u64) -> (r: Result<Vec<u8>, PeriodError>)
        ensures
            match r {
                Ok(bytes) => {
                    &&& final(self).wf()
                    &&& final(self).created_spec() == now_ms
                    &&& final(self).interval_spec().contains(now_ms)
                    &&& is_device_file(bytes@)
                    &&& device_file_value(bytes@) == final(self).value_spec()
                    &&& device_file_created(bytes@) == now_ms
                },
                Err(_) => *final(self) == *old(self),
            },
    {
        let fresh = generate_device_id();
        self.rotate_with(now_ms, fresh)
    }

    /// The creation week.
    pub fn interval(&self) -> (r: WholeWeek)
        ensures
            r == self.interval_spec(),
    {
        self.interval
    }

    /// Milliseconds until the creation week ends; zero when the present
    /// moment lies outside it, asking for an immediate rotation.
    pub fn rotate_after(&self, now_ms: u64) -> (r: u64)
        ensures
            r == duration_to_end_spec(now_ms, self.interval_spec().start_ms, self.interval_spec().end_ms),
    {
        duration_to_end(now_ms, self.interval.start_ms, self.interval.end_ms)
    }
}

/// Shape of the persisted sequence-number file: a bare decimal.
pub open spec fn is_number_file(s: Seq<u8>) -> bool {
    s.len() >= 1 && all_dec_digits(s) && dec_value(s) <= u32::MAX
}

pub open spec fn number_file_value(s: Seq<u8>) -> u32 {
    dec_value(s) as u32
}

/// The successor of a sequence number; the counter wraps at the type's
/// end rather than fail.
pub open spec fn wrap_inc(n: u32) -> u32 {
    if n == u32::MAX {
        0u32
    } else {
        (n + 1) as u32
    }
}

/// The persistent intra-week sequence number.
pub struct RecordNumber {
    number: u32,
    interval: WholeHour,
}

impl RecordNumber {
    pub closed spec fn number_spec(self) -> u32 {
        self.number
    }

    pub closed spec fn interval_spec(self) -> WholeHour {
        self.interval
    }

    pub closed spec fn wf(self) -> bool {
        self.interval.wf()
    }

    /// Load the sequence number: the stored value advanced once (a
    /// process start), or zero when the file is absent or corrupt.  The
    /// new value is always written back; a corrupt file is reported for
    /// deletion.  Fails exactly when the present moment lies past the
    /// supported calendar range.
    pub fn load(content: Option<&Vec<u8>>, now_ms: u64) -> (r: Result<
        (RecordNumber, Vec<u8>, bool),
        PeriodError,
    >)
        ensures
            (r is Err) <==> (now_ms as int / crate::DAY_MS as int) >= crate::calendar::day_limit(),
            match r {
                Ok((num, write, delete_corrupt)) => {
                    &&& num.wf()
                    &&& num.interval_spec().contains(now_ms)
                    &&& delete_corrupt == (content is Some && !is_number_file(content.unwrap()@))
                    &&& num.number_spec() == (match content {
                        Some(b) => if is_number_file(b@) {
                            wrap_inc(number_file_value(b@))
                        } else {
                            0u32
                        },
                        None => 0u32,
                    })
                    &&& is_number_file(write@)
                    &&& number_file_value(write@) == num.number_spec()
                },
                Err(_) => true,
            },
    {
        let parsed: Option<u32> = match content {
            Some(bytes) => parse_u32_dec(bytes.as_slice()),
            None => None,
        };
        let delete_corrupt = content.is_some() && parsed.is_none();
        let number: u32 = match parsed {
            Some(n) => if n == u32::MAX {
                0
            } else {
                n + 1
            },
            None => 0,
        };
        let interval = match WholeHour::of(now_ms) {
            Ok(h) => h,
            Err(e) => {
                return Err(e);
            },
        };
        let write = Self::encode(number);
        Ok((RecordNumber { number, interval }, write, delete_corrupt))
    }

    fn encode(number: u32) -> (r: Vec<u8>)
        ensures
            is_number_file(r@),
            number_file_value(r@) == number,
    {
        proof {
            lemma_dec_bytes_digits(number as nat);
            lemma_dec_roundtrip(number as nat);
        }
        u64_to_dec(number as u64)
    }

    pub fn get(&self) -> (r: u32)
        ensures
            r == self.number_spec(),
    {
        self.number
    }

    /// Advance the number and refresh its hour.  Returns the new file
    /// content to write.  Fails exactly when the present moment lies
    /// past the supported calendar range.
    pub fn increment(&mut self, now_ms: u64) -> (r: Result<Vec<u8>, PeriodError>)
        ensures
            (r is Err) <==> (now_ms as int / crate::DAY_MS as int) >= crate::calendar::day_limit(),
            match r {
                Ok(write) => {
                    &&& final(self).wf()
                    &&& final(self).number_spec() == wrap_inc(old(self).number_spec())
                    &&& final(self).interval_spec().contains(now_ms)
                    &&& is_number_file(write@)
                    &&& number_file_value(write@) == final(self).number_spec()
                },
                Err(_) => *final(self) == *old(self),
            },
    {
        let interval = match WholeHour::of(now_ms) {
            Ok(h) => h,
            Err(e) => {
                return Err(e);
            },
        };
        self.number = if self.number == u32::MAX {
            0
        } else {
            self.number + 1
        };
        self.interval = interval;
        Ok(Self::encode(self.number))
    }

    /// Back to zero (the device identifier rotated), refreshing the
    /// hour.  Returns the new file content to write.  Fails exactly
    /// when the present moment lies past the supported calendar range.
    pub fn reset(&mut self, now_ms: u64) -> (r: Result<Vec<u8>, PeriodError>)
        ensures
            (r is Err) <==> (now_ms as int / crate::DAY_MS as int) >= crate::calendar::day_limit(),
            match r {
                Ok(write) => {
                    &&& final(self).wf()
                    &&& final(self).number_spec() == 0
                    &&& final(self).interval_spec().contains(now_ms)
                    &&& is_number_file(write@)
                    &&& number_file_value(write@) == 0
                },
                Err(_) => *final(self) == *old(self),
            },
    {
        let interval = match WholeHour::of(now_ms) {
            Ok(h) => h,
            Err(e) => {
                return Err(e);
            },
        };
        self.number = 0;
        self.interval = interval;
        Ok(Self::encode(self.number))
    }

    /// The current hour.
    pub fn interval(&self) -> (r: WholeHour)
        ensures
            r == self.interval_spec(),
    {
        self.interval
    }

    /// Milliseconds until the current hour ends; zero when the present
    /// moment lies outside it.
    pub fn increment_after(&self, now_ms: u64) -> (r: u64)
        ensures
            r == duration_to_end_spec(now_ms, self.interval_spec().start_ms, self.interval_spec().end_ms),
    {
        duration_to_end(now_ms, self.interval.start_ms, self.interval.end_ms)
    }
}

/// The file writes and deletions a load of the identity asked for.
pub struct IdentityFileOps {
    pub device_write: Option<Vec<u8>>,
    pub device_delete_corrupt: bool,
    pub number_write: Option<Vec<u8>>,
    pub number_delete_corrupt: bool,
}

/// The composed record identity: device identifier plus sequence number.
pub struct RecordIdStore {
    device_id: DeviceId,
    sequence_number: RecordNumber,
}

impl RecordIdStore {
    pub closed spec fn device_id_spec(self) -> DeviceId {
        self.device_id
    }

    pub closed spec fn sequence_number_spec(self) -> RecordNumber {
        self.sequence_number
    }

    pub open spec fn current_spec(self) -> RecordId {
        RecordId {
            device_id: self.device_id_spec().value_spec(),
            sequence_number: self.sequence_number_spec().number_spec(),
        }
    }

    pub open spec fn wf(self) -> bool {
        self.device_id_spec().wf() && self.sequence_number_spec().wf()
    }

    /// Load both halves of the identity from their files' contents.
    /// Fails exactly when the device identifier's load does.
    pub fn new(device_content: Option<&Vec<u8>>, number_content: Option<&Vec<u8>>, now_ms: u64)
        -> (r: Result<(RecordIdStore, IdentityFileOps), PeriodError>)
        ensures
            (r is Err) <==> (match device_content {
                Some(b) => if is_device_file(b@) {
                    WholeWeek::out_of_range(device_file_created(b@)) || (!device_load_keeps(
                        Some(b@),
                        now_ms,
                    ) && WholeWeek::out_of_range(now_ms))
                } else {
                    WholeWeek::out_of_range(now_ms)
                },
                None => WholeWeek::out_of_range(now_ms),
            }),
            match r {
                Ok((store, ops)) => {
                    &&& store.wf()
                    &&& match ops.device_write {
                        Some(b) => is_device_file(b@) && device_file_value(b@)
                            == store.current_spec().device_id,
                        None => device_load_keeps(
                            match device_content {
                                Some(b) => Some(b@),
                                None => None,
                            },
                            now_ms,
                        ) && store.current_spec().device_id == device_file_value(
                            device_content.unwrap()@,
                        ),
                    }
                    &&& match ops.number_write {
                        Some(b) => is_number_file(b@) && number_file_value(b@)
                            == store.current_spec().sequence_number,
                        None => false,
                    }
                    &&& store.current_spec().sequence_number == (match number_content {
                        Some(b) => if is_number_file(b@) {
                            wrap_inc(number_file_value(b@))
                        } else {
                            0u32
                        },
                        None => 0u32,
                    })
                },
                Err(_) => true,
            },
    {
        let (device_id, device_write, device_delete_corrupt) = match DeviceId::new(
            device_content,
            now_ms,
        ) {
            Ok(v) => v,
            Err(e) => {
                return Err(e);
            },
        };
        proof {
            // The device load succeeded, so the present moment lies
            // inside a Monday-aligned week whose end the calendar still
            // covers; the sequence number's hour lies within that week.
            let day = now_ms as int / DAY_MS as int;
            vstd::arithmetic::div_mod::lemma_fundamental_div_mod(now_ms as int, DAY_MS as int);
            let start = device_id.interval_spec().start_ms as int;
            let wsd: int = if device_load_keeps(
                match device_content {
                    Some(b) => Some(b@),
                    None => None,
                },
                now_ms,
            ) {
                crate::period::week_start_day(
                    device_file_created(device_content.unwrap()@) as int / DAY_MS as int,
                )
            } else {
                crate::period::week_start_day(day)
            };
            assert(start == wsd * (DAY_MS as int));
            assert(wsd + 7 <= crate::calendar::day_limit());
            assert(day < crate::calendar::day_limit()) by (nonlinear_arith)
                requires
                    (now_ms as int) < start + crate::WEEK_MS,
                    start == wsd * (DAY_MS as int),
                    wsd + 7 <= crate::calendar::day_limit(),
                    now_ms as int == DAY_MS as int * day + now_ms as int % DAY_MS as int,
                    (now_ms as int % DAY_MS as int) >= 0,
                    DAY_MS == 86_400_000,
                    crate::WEEK_MS == 604_800_000,
            ;
        }
        let (sequence_number, number_write, number_delete_corrupt) = match RecordNumber::load(
            number_content,
            now_ms,
        ) {
            Ok(v) => v,
            Err(e) => {
                return Err(e);
            },
        };
        let ops = IdentityFileOps {
            device_write,
            device_delete_corrupt,
            number_write: Some(number_write),
            number_delete_corrupt,
        };
        Ok((RecordIdStore { device_id, sequence_number }, ops))
    }

    pub fn device_id(&self) -> (r: &DeviceId)
        ensures
            *r == self.device_id_spec(),
    {
        &self.device_id
    }

    pub fn sequence_number(&self) -> (r: &RecordNumber)
        ensures
            *r == self.sequence_number_spec(),
    {
        &self.sequence_number
    }

    /// The identity records are currently attributed to.
    pub fn current(&self) -> (r: RecordId)
        ensures
            r == self.current_spec(),
    {
        RecordId {
            device_id: self.device_id.get(),
            sequence_number: self.sequence_number.get(),
        }
    }

    /// Advance the sequence number.  The device identifier is untouched
    /// and the new sequence number differs from the old one.  Fails
    /// exactly when the present moment lies past the supported
    /// calendar range.
    pub fn increment(&mut self, now_ms: u64) -> (r: Result<Vec<u8>, PeriodError>)
        requires
            old(self).wf(),
        ensures
            (r is Err) <==> (now_ms as int / crate::DAY_MS as int) >= crate::calendar::day_limit(),
            match r {
                Ok(write) => {
                    &&& final(self).wf()
                    &&& final(self).current_spec().device_id == old(self).current_spec().device_id
                    &&& final(self).current_spec().sequence_number == wrap_inc(
                        old(self).current_spec().sequence_number,
                    )
                    &&& final(self).current_spec().sequence_number != old(
                        self,
                    ).current_spec().sequence_number
                    &&& final(self).device_id_spec() == old(self).device_id_spec()
                    &&& is_number_file(write@)
                    &&& number_file_value(write@) == final(self).current_spec().sequence_number
                },
                Err(_) => *final(self) == *old(self),
            },
    {
        match self.sequence_number.increment(now_ms) {
            Ok(write) => Ok(write),
            Err(e) => Err(e),
        }
    }

    /// Rotate to the given fresh device identifier and reset the
    /// sequence number to zero, in one transition.  Fails exactly when
    /// the present moment lies outside the supported calendar range.
    pub fn rotate_with(&mut self, now_ms: u64, fresh: u128) -> (r: Result<
        (Vec<u8>, Vec<u8>),
        PeriodError,
    >)
        ensures
            (r is Err) <==> WholeWeek::out_of_range(now_ms),
            match r {
                Ok((device_write, number_write)) => {
                    &&& final(self).wf()
                    &&& final(self).current_spec().device_id == fresh
                    &&& final(self).current_spec().sequence_number == 0
                    &&& is_device_file(device_write@)
                    &&& device_file_value(device_write@) == fresh
                    &&& device_file_created(device_write@) == now_ms
                    &&& is_number_file(number_write@)
                    &&& number_file_value(number_write@) == 0
                },
                Err(_) => *final(self) == *old(self),
            },
    {
        let device_write = match self.device_id.rotate_with(now_ms, fresh) {
            Ok(w) => w,
            Err(e) => {
                return Err(e);
            },
        };
        let number_write = match self.sequence_number.reset(now_ms) {
            Ok(w) => w,
            Err(e) => {
                return Err(e);
            },
        };
        Ok((device_write, number_write))
    }

    /// Rotate to a freshly generated device identifier.  Fails exactly
    /// when the present moment lies outside the supported calendar
    /// range.
    pub fn rotate(&mut self, now_ms: u64) -> (r: Result<(Vec<u8>, Vec<u8>), PeriodError>)
        ensures
            (r is Err) <==> WholeWeek::out_of_range(now_ms),
            match r {
                Ok((device_write, number_write)) => {
                    &&& final(self).wf()
                    &&& final(self).current_spec().sequence_number == 0
                    &&& is_device_file(device_write@)
                    &&& device_file_value(device_write@) == final(self).current_spec().device_id
                    &&& is_number_file(number_write@)
                    &&& number_file_value(number_write@) == 0
                },
                Err(_) => *final(self) == *old(self),
            },
    {
        let fresh = generate_device_id();
        match self.rotate_with(now_ms, fresh) {
            Ok(v) => Ok(v),
            Err(e) => Err(e),
        }
    }
}

/// Rotating to a fresh identifier that differs from the current one
/// always changes the device identifier and zeroes the sequence number.
pub proof fn lemma_rotate_changes_identity(
    before: RecordId,
    after: RecordId,
    fresh: u128,
)
    requires
        fresh != before.device_id,
        after.device_id == fresh,
        after.sequence_number == 0,
    ensures
        after.device_id != before.device_id,
        after.sequence_number == 0,
{
}

} // verus!
