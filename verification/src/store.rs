//! The record store's decisions: how record files are named, what a
//! record file's body holds, which files a load keeps and which it
//! deletes, and which record an upload pass picks.  The host performs
//! the directory walk and the reads and writes, and hands the raw
//! bytes here.

use vstd::prelude::*;
use crate::backoff::Backoff;
use crate::crypto::{encrypt, EncryptError, PublicKey};
use crate::encoding::{
    all_dec_digits, dec_bytes, dec_value, find_sep, is_uuid_text, lemma_dec_bytes_digits,
    lemma_dec_roundtrip, lemma_dec_value_bound, lemma_sep_at_absent, lemma_sep_at_found,
    parse_u32_dec, parse_u64_dec, parse_uuid, sep_at, u64_to_dec, uuid_text_value,
};
use crate::identity::{record_id_text, IdentityFileOps, RecordId, RecordIdStore};
use crate::period::PeriodError;

verus! {

/// Version written into record names; files with any other version are
/// deleted on load.
pub const RECORD_VERSION: u32 = 0;

/// Age, in milliseconds, past which a record is deleted without upload.
pub const DELETE_RECORDS_AFTER_MS: u64 = 604_800_000;

/// The name stem of a record file.
pub open spec fn record_name_text(version: u32, id: RecordId) -> Seq<u8> {
    seq![118u8] + dec_bytes(version as nat) + seq![95u8] + record_id_text(id)
}

/// Position of the first separator of a record name.
pub open spec fn name_p1(s: Seq<u8>) -> int {
    sep_at(s, 0, 95u8)
}

/// Position of the second separator.
pub open spec fn name_p2(s: Seq<u8>) -> int {
    sep_at(s, name_p1(s) + 1, 95u8)
}

/// End of the third part: the next separator or the end of the name.
/// Anything after a third separator is ignored.
pub open spec fn name_p3(s: Seq<u8>) -> int {
    sep_at(s, name_p2(s) + 1, 95u8)
}

/// Shape of a parseable record name: a `v`-prefixed decimal version, a
/// hyphenated identifier, and a decimal sequence number, separated by
/// underscores.
pub open spec fn is_record_name(s: Seq<u8>) -> bool {
    let p1 = name_p1(s);
    let p2 = name_p2(s);
    let p3 = name_p3(s);
    &&& p1 < s.len()
    &&& p2 < s.len()
    &&& p1 >= 2
    &&& s[0] == 118u8
    &&& all_dec_digits(s.subrange(1, p1))
    &&& dec_value(s.subrange(1, p1)) <= u32::MAX
    &&& is_uuid_text(s.subrange(p1 + 1, p2))
    &&& p3 > p2 + 1
    &&& all_dec_digits(s.subrange(p2 + 1, p3))
    &&& dec_value(s.subrange(p2 + 1, p3)) <= u32::MAX
}

pub open spec fn name_version(s: Seq<u8>) -> u32 {
    dec_value(s.subrange(1, name_p1(s))) as u32
}

pub open spec fn name_record_id(s: Seq<u8>) -> RecordId {
    RecordId {
        device_id: uuid_text_value(s.subrange(name_p1(s) + 1, name_p2(s))) as u128,
        sequence_number: dec_value(s.subrange(name_p2(s) + 1, name_p3(s))) as u32,
    }
}

/// A printed record name parses back to the same version and identity.
pub proof fn lemma_record_name_roundtrip(version: u32, id: RecordId)
    ensures
        is_record_name(record_name_text(version, id)),
        name_version(record_name_text(version, id)) == version,
        name_record_id(record_name_text(version, id)) == id,
{
    let dv = dec_bytes(version as nat);
    let ut = crate::encoding::uuid_text(id.device_id as nat);
    let ds = dec_bytes(id.sequence_number as nat);
    let s = record_name_text(version, id);
    lemma_dec_bytes_digits(version as nat);
    lemma_dec_bytes_digits(id.sequence_number as nat);
    lemma_dec_roundtrip(version as nat);
    lemma_dec_roundtrip(id.sequence_number as nat);
    crate::encoding::lemma_uuid_roundtrip(id.device_id);
    crate::encoding::lemma_dec_value_bound(dv);
    crate::encoding::lemma_dec_value_bound(ds);
    let p1 = 1 + dv.len() as int;
    let p2 = p1 + 1 + 36;
    let p3 = p2 + 1 + ds.len() as int;
    assert(s.len() == p3);
    assert(s =~= seq![118u8] + dv + seq![95u8] + crate::identity::record_id_text(id));
    assert(crate::identity::record_id_text(id) == ut + seq![95u8] + ds);
    // No separator hides inside any of the three parts.
    assert forall|j: int| 0 <= j < p1 implies s[j] != 95u8 by {
        if j > 0 {
            assert(crate::encoding::is_dec_digit(dv[j - 1]));
            assert(s[j] == dv[j - 1]);
        }
    }
    assert(s[p1] == 95u8);
    lemma_sep_at_found(s, 0, 95u8, p1);
    assert forall|j: int| p1 + 1 <= j < p2 implies s[j] != 95u8 by {
        let k = j - (p1 + 1);
        assert(s[j] == ut[k]);
        assert(crate::encoding::is_uuid_text(ut));
        if k == 8 || k == 13 || k == 18 || k == 23 {
            assert(ut[k] == 45u8);
        } else if k < 8 {
            assert(crate::encoding::is_hex_digit(ut.subrange(0, 8)[k]));
            assert(ut.subrange(0, 8)[k] == ut[k]);
        } else if k < 13 {
            assert(crate::encoding::is_hex_digit(ut.subrange(9, 13)[k - 9]));
            assert(ut.subrange(9, 13)[k - 9] == ut[k]);
        } else if k < 18 {
            assert(crate::encoding::is_hex_digit(ut.subrange(14, 18)[k - 14]));
            assert(ut.subrange(14, 18)[k - 14] == ut[k]);
        } else if k < 23 {
            assert(crate::encoding::is_hex_digit(ut.subrange(19, 23)[k - 19]));
            assert(ut.subrange(19, 23)[k - 19] == ut[k]);
        } else {
            assert(crate::encoding::is_hex_digit(ut.subrange(24, 36)[k - 24]));
            assert(ut.subrange(24, 36)[k - 24] == ut[k]);
        }
    }
    assert(s[p2] == 95u8);
    lemma_sep_at_found(s, p1 + 1, 95u8, p2);
    assert forall|j: int| p2 + 1 <= j < p3 implies s[j] != 95u8 by {
        assert(crate::encoding::is_dec_digit(ds[j - (p2 + 1)]));
        assert(s[j] == ds[j - (p2 + 1)]);
    }
    lemma_sep_at_absent(s, p2 + 1, 95u8);
    assert(s.subrange(1, p1) =~= dv);
    assert(s.subrange(p1 + 1, p2) =~= ut);
    assert(s.subrange(p2 + 1, p3) =~= ds);
}

/// Print the name stem of a record.
pub fn build_record_name(version: u32, record_id: RecordId) -> (r: Vec<u8>)
    ensures
        r@ == record_name_text(version, record_id),
{
    let mut out: Vec<u8> = Vec::new();
    out.push(118u8);
    let mut ver = u64_to_dec(version as u64);
    out.append(&mut ver);
    out.push(95u8);
    let mut id_text = record_id.text();
    out.append(&mut id_text);
    proof {
        assert(out@ =~= record_name_text(version, record_id));
    }
    out
}

/// Parse a record name stem.  Succeeds exactly on well-shaped names
/// and returns the version, device identifier and sequence number.
pub fn parse_record_name(name: &[u8]) -> (r: Option<(u32, u128, u32)>)
    ensures
        match r {
            Some(p) => is_record_name(name@) && p.0 == name_version(name@) && p.1
                == name_record_id(name@).device_id && p.2 == name_record_id(
                name@,
            ).sequence_number,
            None => !is_record_name(name@),
        },
{
    let p1 = find_sep(name, 0, 95u8);
    if p1 >= name.len() {
        return None;
    }
    let p2 = find_sep(name, p1 + 1, 95u8);
    if p2 >= name.len() {
        return None;
    }
    let p3 = find_sep(name, p2 + 1, 95u8);
    if p1 < 2 {
        return None;
    }
    if name[0] != 118u8 {
        return None;
    }
    let version = match parse_u32_dec(vstd::slice::slice_subrange(name, 1, p1)) {
        Some(v) => v,
        None => {
            return None;
        },
    };
    let device_id = match parse_uuid(vstd::slice::slice_subrange(name, p1 + 1, p2)) {
        Some(v) => v,
        None => {
            return None;
        },
    };
    if p3 <= p2 + 1 {
        return None;
    }
    let sequence_number = match parse_u32_dec(vstd::slice::slice_subrange(name, p2 + 1, p3)) {
        Some(v) => v,
        None => {
            return None;
        },
    };
    Some((version, device_id, sequence_number))
}

/// The body of a record file: the creation moment in decimal
/// milliseconds, a line break, and the sealed payload.
pub open spec fn record_body_text(created_ms: nat, ciphertext: Seq<u8>) -> Seq<u8> {
    dec_bytes(created_ms) + seq![10u8] + ciphertext
}

/// Position of the line break of a record body.
pub open spec fn body_nl(s: Seq<u8>) -> int {
    sep_at(s, 0, 10u8)
}

pub open spec fn is_record_body(s: Seq<u8>) -> bool {
    let nl = body_nl(s);
    &&& nl < s.len()
    &&& nl >= 1
    &&& all_dec_digits(s.subrange(0, nl))
    &&& dec_value(s.subrange(0, nl)) <= u64::MAX
}

pub open spec fn body_created(s: Seq<u8>) -> u64 {
    dec_value(s.subrange(0, body_nl(s))) as u64
}

pub open spec fn body_ciphertext(s: Seq<u8>) -> Seq<u8> {
    s.subrange(body_nl(s) + 1, s.len() as int)
}

/// Print a record body.
pub fn encode_record_body(created_ms: u64, ciphertext: Vec<u8>) -> (r: Vec<u8>)
    ensures
        r@ == record_body_text(created_ms as nat, ciphertext@),
        is_record_body(r@),
        body_created(r@) == created_ms,
        body_ciphertext(r@) == ciphertext@,
{
    let mut out = u64_to_dec(created_ms);
    let ghost digits = out@;
    out.push(10u8);
    let mut ct = ciphertext;
    let ghost ctv = ct@;
    out.append(&mut ct);
    proof {
        lemma_dec_bytes_digits(created_ms as nat);
        lemma_dec_roundtrip(created_ms as nat);
        let s = out@;
        assert(s =~= record_body_text(created_ms as nat, ctv));
        assert forall|j: int| 0 <= j < digits.len() implies s[j] != 10u8 by {
            assert(crate::encoding::is_dec_digit(digits[j]));
        }
        assert(s[digits.len() as int] == 10u8);
        lemma_sep_at_found(s, 0, 10u8, digits.len() as int);
        assert(s.subrange(0, digits.len() as int) =~= digits);
        assert(s.subrange(digits.len() as int + 1, s.len() as int) =~= ctv);
    }
    out
}

/// Parse a record body.  Succeeds exactly on well-shaped bodies.
pub fn parse_record_body(s: &[u8]) -> (r: Option<(u64, Vec<u8>)>)
    ensures
        match r {
            Some(p) => is_record_body(s@) && p.0 == body_created(s@) && p.1@ == body_ciphertext(
                s@,
            ),
            None => !is_record_body(s@),
        },
{
    let nl = find_sep(s, 0, 10u8);
    if nl >= s.len() {
        return None;
    }
    if nl < 1 {
        return None;
    }
    let created = match parse_u64_dec(vstd::slice::slice_subrange(s, 0, nl)) {
        Some(v) => v,
        None => {
            return None;
        },
    };
    let ciphertext = vstd::slice::slice_to_vec(vstd::slice::slice_subrange(s, nl + 1, s.len()));
    Some((created, ciphertext))
}

/// One record file as the host read it: the name stem and the raw body.
#[derive(Debug)]
pub struct RecordFileInput {
    pub name: Vec<u8>,
    pub content: Vec<u8>,
}

/// One surviving record.
#[derive(Debug)]
pub struct StoredRecord {
    pub id: RecordId,
    pub name: Vec<u8>,
    pub created_ms: u64,
    pub content: Vec<u8>,
}

impl StoredRecord {
    /// The name stem under which the record lies on disk.
    pub fn name(&self) -> (r: &Vec<u8>)
        ensures
            r@ == self.name@,
    {
        &self.name
    }

    pub fn is_current(&self, device_id: u128, record_number: u32) -> (r: bool)
        ensures
            r == (self.id == RecordId {
                device_id,
                sequence_number: record_number,
            }),
    {
        self.id.device_id == device_id && self.id.sequence_number == record_number
    }
}

/// Does a load keep this file?  The name must parse under the current
/// version, the body must parse, and the record must have been created
/// no later than the present moment and less than the limit ago.
pub open spec fn input_keeps(name: Seq<u8>, body: Seq<u8>, now_ms: u64) -> bool {
    &&& is_record_name(name)
    &&& name_version(name) == RECORD_VERSION
    &&& is_record_body(body)
    &&& body_created(body) <= now_ms
    &&& now_ms - body_created(body) < DELETE_RECORDS_AFTER_MS
}

/// View of the raw inputs.
pub open spec fn files_view(s: Seq<RecordFileInput>) -> Seq<(Seq<u8>, Seq<u8>)> {
    Seq::new(s.len(), |i: int| (s[i].name@, s[i].content@))
}

/// The kept files, as view tuples `(id, name, created, ciphertext)`.
pub open spec fn kept_view(files: Seq<(Seq<u8>, Seq<u8>)>, now_ms: u64) -> Seq<
    (RecordId, Seq<u8>, u64, Seq<u8>),
>
    decreases files.len(),
{
    if files.len() == 0 {
        Seq::empty()
    } else {
        let rest = kept_view(files.drop_last(), now_ms);
        let f = files.last();
        if input_keeps(f.0, f.1, now_ms) {
            rest.push((name_record_id(f.0), f.0, body_created(f.1), body_ciphertext(f.1)))
        } else {
            rest
        }
    }
}

/// The deleted files' name stems.
pub open spec fn deleted_view(files: Seq<(Seq<u8>, Seq<u8>)>, now_ms: u64) -> Seq<Seq<u8>>
    decreases files.len(),
{
    if files.len() == 0 {
        Seq::empty()
    } else {
        let rest = deleted_view(files.drop_last(), now_ms);
        let f = files.last();
        if input_keeps(f.0, f.1, now_ms) {
            rest
        } else {
            rest.push(f.0)
        }
    }
}

/// Witness that kept entry `i` descends from an approved input file.
pub open spec fn kept_entry_valid(files: Seq<(Seq<u8>, Seq<u8>)>, now_ms: u64, i: int) -> bool {
    exists|j: int|
        {
            &&& 0 <= j < files.len()
            &&& input_keeps(#[trigger] files[j].0, files[j].1, now_ms)
            &&& name_version(files[j].0) == RECORD_VERSION
            &&& kept_view(files, now_ms)[i] == (
                name_record_id(files[j].0),
                files[j].0,
                body_created(files[j].1),
                body_ciphertext(files[j].1),
            )
            &&& body_created(files[j].1) <= now_ms
            &&& now_ms - body_created(files[j].1) < DELETE_RECORDS_AFTER_MS
        }
}

/// Every record a load keeps was read from a file the sifting
/// approves of: its name parses under the current version, its body
/// parses, and its age lies strictly below the deletion limit with a
/// creation moment not in the future.
pub proof fn lemma_enumerated_records_valid(files: Seq<(Seq<u8>, Seq<u8>)>, now_ms: u64)
    ensures
        forall|i: int|
            0 <= i < kept_view(files, now_ms).len() ==> #[trigger] kept_entry_valid(
                files,
                now_ms,
                i,
            ),
    decreases files.len(),
{
    if files.len() > 0 {
        lemma_enumerated_records_valid(files.drop_last(), now_ms);
        let kept = kept_view(files, now_ms);
        let kd = kept_view(files.drop_last(), now_ms);
        let f = files.last();
        assert forall|i: int| 0 <= i < kept.len() implies #[trigger] kept_entry_valid(
            files,
            now_ms,
            i,
        ) by {
            if input_keeps(f.0, f.1, now_ms) && i == kept.len() - 1 {
                let j = files.len() - 1;
                assert(files[j] == f);
                assert({
                    &&& 0 <= j < files.len()
                    &&& input_keeps(files[j].0, files[j].1, now_ms)
                    &&& name_version(files[j].0) == RECORD_VERSION
                    &&& kept_view(files, now_ms)[i] == (
                        name_record_id(files[j].0),
                        files[j].0,
                        body_created(files[j].1),
                        body_ciphertext(files[j].1),
                    )
                    &&& body_created(files[j].1) <= now_ms
                    &&& now_ms - body_created(files[j].1) < DELETE_RECORDS_AFTER_MS
                });
            } else {
                assert(kept[i] == kd[i]);
                assert(kept_entry_valid(files.drop_last(), now_ms, i));
                let jw = choose|j: int|
                    {
                        &&& 0 <= j < files.drop_last().len()
                        &&& input_keeps(
                            #[trigger] files.drop_last()[j].0,
                            files.drop_last()[j].1,
                            now_ms,
                        )
                        &&& name_version(files.drop_last()[j].0) == RECORD_VERSION
                        &&& kept_view(files.drop_last(), now_ms)[i] == (
                            name_record_id(files.drop_last()[j].0),
                            files.drop_last()[j].0,
                            body_created(files.drop_last()[j].1),
                            body_ciphertext(files.drop_last()[j].1),
                        )
                        &&& body_created(files.drop_last()[j].1) <= now_ms
                        &&& now_ms - body_created(files.drop_last()[j].1)
                            < DELETE_RECORDS_AFTER_MS
                    };
                assert(files[jw] == files.drop_last()[jw]);
                assert({
                    &&& 0 <= jw < files.len()
                    &&& input_keeps(files[jw].0, files[jw].1, now_ms)
                    &&& name_version(files[jw].0) == RECORD_VERSION
                    &&& kept_view(files, now_ms)[i] == (
                        name_record_id(files[jw].0),
                        files[jw].0,
                        body_created(files[jw].1),
                        body_ciphertext(files[jw].1),
                    )
                    &&& body_created(files[jw].1) <= now_ms
                    &&& now_ms - body_created(files[jw].1) < DELETE_RECORDS_AFTER_MS
                });
            }
        }
    }
}

/// Sift the raw record files: parse, validate, and age out.  The first
/// result holds the surviving records in input order; the second the
/// name stems of the files to delete.  Every surviving record carries
/// the current version and an age below the deletion limit.
pub fn load_stored_records(files: Vec<RecordFileInput>, now_ms: u64) -> (r: (
    Vec<StoredRecord>,
    Vec<Vec<u8>>,
))
    ensures
        ({
            let kept = kept_view(files_view(files@), now_ms);
            let deleted = deleted_view(files_view(files@), now_ms);
            &&& r.0@.len() == kept.len()
            &&& forall|i: int|
                0 <= i < kept.len() ==> ((#[trigger] r.0@[i]).id, r.0@[i].name@,
                r.0@[i].created_ms, r.0@[i].content@) == kept[i]
            &&& r.1@.len() == deleted.len()
            &&& forall|i: int| 0 <= i < deleted.len() ==> (#[trigger] r.1@[i])@ == deleted[i]
            &&& forall|i: int|
                0 <= i < kept.len() ==> now_ms - (#[trigger] r.0@[i]).created_ms
                    < DELETE_RECORDS_AFTER_MS && r.0@[i].created_ms <= now_ms
        }),
{
    let ghost all = files_view(files@);
    let mut records: Vec<StoredRecord> = Vec::new();
    let mut deletions: Vec<Vec<u8>> = Vec::new();
    let mut rest = files;
    let ghost total = all.len();
    proof {
        assert(all.subrange(0, 0) =~= Seq::<(Seq<u8>, Seq<u8>)>::empty());
        assert(files_view(rest@) =~= all.subrange(0, total as int));
    }
    while rest.len() > 0
        invariant
            rest@.len() <= total == all.len(),
            files_view(rest@) =~= all.subrange(
                total - rest@.len(),
                total as int,
            ),
            records@.len() == kept_view(
                all.subrange(0, total - rest@.len()),
                now_ms,
            ).len(),
            forall|i: int|
                0 <= i < records@.len() ==> ((#[trigger] records@[i]).id, records@[i].name@,
                records@[i].created_ms, records@[i].content@) == kept_view(
                    all.subrange(0, total - rest@.len()),
                    now_ms,
                )[i],
            deletions@.len() == deleted_view(
                all.subrange(0, total - rest@.len()),
                now_ms,
            ).len(),
            forall|i: int|
                0 <= i < deletions@.len() ==> (#[trigger] deletions@[i])@ == deleted_view(
                    all.subrange(0, total - rest@.len()),
                    now_ms,
                )[i],
            forall|i: int|
                0 <= i < records@.len() ==> now_ms - (#[trigger] records@[i]).created_ms
                    < DELETE_RECORDS_AFTER_MS && records@[i].created_ms <= now_ms,
        decreases rest@.len(),
    {
        let ghost done = total - rest@.len();
        let ghost pre = rest@;
        let f = rest.remove(0);
        proof {
            assert(files_view(pre) == all.subrange(done as int, total as int));
            assert(files_view(pre)[0] == (pre[0].name@, pre[0].content@));
            assert(all.subrange(done as int, total as int)[0] == all[done as int]);
            assert((f.name@, f.content@) == all[done as int]);
            assert forall|j: int| 0 <= j < rest@.len() implies rest@[j] == pre[j + 1] by {
                assert(rest@ == pre.remove(0));
            }
            assert(files_view(rest@) =~= all.subrange(done + 1, total as int)) by {
                assert forall|j: int|
                    0 <= j < rest@.len() implies files_view(rest@)[j] == all.subrange(
                    done + 1,
                    total as int,
                )[j] by {
                    assert(rest@[j] == pre[j + 1]);
                    assert(files_view(pre)[j + 1] == (pre[j + 1].name@, pre[j + 1].content@));
                    assert(all.subrange(done as int, total as int)[j + 1] == all[done + 1 + j]);
                }
            }
            assert(all.subrange(0, done + 1).drop_last() =~= all.subrange(0, done as int));
            assert(all.subrange(0, done + 1).last() == all[done as int]);
        }
        let keep: Option<(u32, u128, u32)> = parse_record_name(f.name.as_slice());
        match keep {
            Some((version, device_id, sequence_number)) if version == RECORD_VERSION => {
                match parse_record_body(f.content.as_slice()) {
                    Some((created_ms, ciphertext)) => {
                        if created_ms <= now_ms && now_ms - created_ms
                            < DELETE_RECORDS_AFTER_MS {
                            records.push(
                                StoredRecord {
                                    id: RecordId { device_id, sequence_number },
                                    name: f.name,
                                    created_ms,
                                    content: ciphertext,
                                },
                            );
                        } else {
                            deletions.push(f.name);
                        }
                    },
                    None => {
                        deletions.push(f.name);
                    },
                }
            },
            _ => {
                deletions.push(f.name);
            },
        }
    }
    proof {
        assert(all.subrange(0, total as int) =~= all);
    }
    (records, deletions)
}

/// Index `i` holds the record an upload pass takes: a record whose
/// identity differs from the current one, the oldest such by creation
/// time, and the last of several equally old.
pub open spec fn is_upload_pick(records: Seq<StoredRecord>, current: RecordId, i: int) -> bool {
    &&& 0 <= i < records.len()
    &&& records[i].id != current
    &&& forall|j: int|
        0 <= j < records.len() && (#[trigger] records[j]).id != current ==> records[i].created_ms
            <= records[j].created_ms
    &&& forall|j: int|
        0 <= j < records.len() && (#[trigger] records[j]).id != current && records[j].created_ms
            == records[i].created_ms ==> j <= i
}

/// Pick the record an upload pass takes: the oldest among those whose
/// identity differs from the current one, the later of two equally old.
/// The current identity's record is never picked.
pub fn oldest_non_current_record(records: &Vec<StoredRecord>, current: RecordId) -> (r: Option<
    usize,
>)
    ensures
        match r {
            Some(i) => is_upload_pick(records@, current, i as int),
            None => forall|j: int|
                0 <= j < records@.len() ==> (#[trigger] records@[j]).id == current,
        },
{
    let mut best: Option<usize> = None;
    let n = records.len();
    let mut k: usize = 0;
    while k < n
        invariant
            n == records@.len(),
            0 <= k <= n,
            match best {
                Some(i) => {
                    &&& i < k
                    &&& records@[i as int].id != current
                    &&& forall|j: int|
                        0 <= j < k && (#[trigger] records@[j]).id != current
                            ==> records@[i as int].created_ms <= records@[j].created_ms
                    &&& forall|j: int|
                        0 <= j < k && (#[trigger] records@[j]).id != current
                            && records@[j].created_ms == records@[i as int].created_ms ==> j <= i
                },
                None => forall|j: int| 0 <= j < k ==> (#[trigger] records@[j]).id == current,
            },
        decreases n - k,
    {
        let entry: &StoredRecord = vstd::std_specs::vec::vec_index(records, k);
        let differs = !(entry.id.device_id == current.device_id && entry.id.sequence_number
            == current.sequence_number);
        if differs {
            best = match best {
                None => Some(k),
                Some(i) => {
                    let cur: &StoredRecord = vstd::std_specs::vec::vec_index(records, i);
                    if entry.created_ms <= cur.created_ms {
                        Some(k)
                    } else {
                        Some(i)
                    }
                },
            };
        }
        k = k + 1;
    }
    best
}

/// The record store: the recipient key and the persistent pieces the
/// runner owns.  The records directory itself lives with the host; the
/// store decides what is written into it.
pub struct Store {
    pub encryption_key: PublicKey,
    pub record_id: RecordIdStore,
    pub backoff: Backoff,
}

/// What loading the store asked the host to do to the identity and
/// backoff files.
pub struct StoreInitOps {
    pub identity: IdentityFileOps,
    pub backoff_delete_corrupt: bool,
}

impl Store {
    pub open spec fn wf(self) -> bool {
        self.record_id.wf() && self.encryption_key.wf()
    }

    /// Assemble the store from the persisted files' contents.  Fails
    /// exactly when the identity's load does.
    pub fn new(
        encryption_key: PublicKey,
        device_content: Option<&Vec<u8>>,
        number_content: Option<&Vec<u8>>,
        backoff_content: Option<&Vec<u8>>,
        now_ms: u64,
    ) -> (r: Result<(Store, StoreInitOps), PeriodError>)
        requires
            encryption_key.wf(),
        ensures
            (r is Err) <==> (match device_content {
                Some(b) => if crate::identity::is_device_file(b@) {
                    crate::period::WholeWeek::out_of_range(crate::identity::device_file_created(b@))
                        || (!crate::identity::device_load_keeps(Some(b@), now_ms)
                        && crate::period::WholeWeek::out_of_range(now_ms))
                } else {
                    crate::period::WholeWeek::out_of_range(now_ms)
                },
                None => crate::period::WholeWeek::out_of_range(now_ms),
            }),
            match r {
                Ok((store, ops)) => {
                    &&& store.wf()
                    &&& store.encryption_key == encryption_key
                    &&& !store.backoff.stopped
                    // The backoff resumes the persisted failure, or starts
                    // clear; a corrupt file is reported for deletion.
                    &&& match backoff_content {
                        Some(bytes) => if crate::backoff::is_backoff_file(bytes@) {
                            store.backoff.state == crate::backoff::State::Failure(
                                crate::backoff::backoff_file_failure(bytes@),
                            ) && !ops.backoff_delete_corrupt
                        } else {
                            store.backoff.state is Success && ops.backoff_delete_corrupt
                        },
                        None => store.backoff.state is Success && !ops.backoff_delete_corrupt,
                    }
                    // The sequence number advances once past the stored
                    // value, or restarts at zero, and is written back.
                    &&& store.record_id.current_spec().sequence_number == (match number_content {
                        Some(b) => if crate::identity::is_number_file(b@) {
                            crate::identity::wrap_inc(crate::identity::number_file_value(b@))
                        } else {
                            0u32
                        },
                        None => 0u32,
                    })
                    &&& match ops.identity.number_write {
                        Some(b) => crate::identity::is_number_file(b@)
                            && crate::identity::number_file_value(b@)
                            == store.record_id.current_spec().sequence_number,
                        None => false,
                    }
                    // The device identifier is the stored one while its
                    // week lasts, else a fresh one persisted at once.
                    &&& match ops.identity.device_write {
                        Some(b) => crate::identity::is_device_file(b@)
                            && crate::identity::device_file_value(b@)
                            == store.record_id.current_spec().device_id,
                        None => crate::identity::device_load_keeps(
                            match device_content {
                                Some(b) => Some(b@),
                                None => None,
                            },
                            now_ms,
                        ) && store.record_id.current_spec().device_id
                            == crate::identity::device_file_value(device_content.unwrap()@),
                    }
                },
                Err(_) => true,
            },
    {
        let (record_id, identity) = match RecordIdStore::new(
            device_content,
            number_content,
            now_ms,
        ) {
            Ok(v) => v,
            Err(e) => {
                return Err(e);
            },
        };
        let (backoff, backoff_delete_corrupt) = Backoff::new_with(backoff_content);
        Ok(
            (
                Store { encryption_key, record_id, backoff },
                StoreInitOps { identity, backoff_delete_corrupt },
            ),
        )
    }

    /// The identity records are currently attributed to.
    pub fn current_record_id(&self) -> (r: RecordId)
        ensures
            r == self.record_id.current_spec(),
    {
        self.record_id.current()
    }

    /// Seal a payload into the current identity's record file: its name
    /// stem and its full body, for the host to write.  Only the seal
    /// itself can fail.
    pub fn store_record(&self, record_data: &Vec<u8>, now_ms: u64) -> (r: Result<
        (Vec<u8>, Vec<u8>),
        EncryptError,
    >)
        requires
            self.wf(),
        ensures
            match r {
                Ok((name, body)) => {
                    &&& name@ == record_name_text(RECORD_VERSION, self.record_id.current_spec())
                    &&& is_record_body(body@)
                    &&& body_created(body@) == now_ms
                    &&& body_ciphertext(body@).len() == record_data@.len() + 48
                },
                Err(_) => true,
            },
    {
        let name = build_record_name(RECORD_VERSION, self.record_id.current());
        let sealed = match encrypt(&self.encryption_key, record_data.as_slice()) {
            Ok(c) => c,
            Err(e) => {
                return Err(e);
            },
        };
        let body = encode_record_body(now_ms, sealed);
        Ok((name, body))
    }
}

} // verus!
