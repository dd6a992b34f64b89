//! The record payload: one JSON object assembled byte by byte, with a
//! specification that pins every byte.  Field order follows the record
//! schema: the host platform, the collection interval, the two bridge
//! counters, the bootstrap summaries, the request tallies, and the
//! auxiliary entries.

use vstd::prelude::*;
use vstd::utf8::encode_utf8;
use crate::bootstrap::{
    collect_success_durations, count_started, count_started_in, count_in_bucket,
    count_unassigned, max_of, max_of_values, min_of, min_of_values, success_durations,
    BootstrapState, ExponentialHistogram,
};
use crate::encoding::{dec_bytes, u64_to_dec, u64_to_dec_pad, zero_pad};
use crate::period::{WholeHour, WholeWeek};
use crate::request::Summary;

verus! {

/// `{"os":`
pub open spec fn lit_os_open() -> Seq<u8> {
    seq![123u8, 34u8, 111u8, 115u8, 34u8, 58u8]
}

fn push_lit_os_open(out: &mut Vec<u8>)
    ensures
        final(out)@ == old(out)@ + lit_os_open(),
{
    out.push(123u8);
    out.push(34u8);
    out.push(111u8);
    out.push(115u8);
    out.push(34u8);
    out.push(58u8);
    proof {
        assert(out@ =~= old(out)@ + lit_os_open());
    }
}

/// `,"interval":"`
pub open spec fn lit_interval() -> Seq<u8> {
    seq![44u8, 34u8, 105u8, 110u8, 116u8, 101u8, 114u8, 118u8, 97u8, 108u8, 34u8, 58u8, 34u8]
}

fn push_lit_interval(out: &mut Vec<u8>)
    ensures
        final(out)@ == old(out)@ + lit_interval(),
{
    out.push(44u8);
    out.push(34u8);
    out.push(105u8);
    out.push(110u8);
    out.push(116u8);
    out.push(101u8);
    out.push(114u8);
    out.push(118u8);
    out.push(97u8);
    out.push(108u8);
    out.push(34u8);
    out.push(58u8);
    out.push(34u8);
    proof {
        assert(out@ =~= old(out)@ + lit_interval());
    }
}

/// `","bridge_i2c":`
pub open spec fn lit_bridge_i2c() -> Seq<u8> {
    seq![34u8, 44u8, 34u8, 98u8, 114u8, 105u8, 100u8, 103u8, 101u8, 95u8, 105u8, 50u8, 99u8, 34u8, 58u8]
}

fn push_lit_bridge_i2c(out: &mut Vec<u8>)
    ensures
        final(out)@ == old(out)@ + lit_bridge_i2c(),
{
    out.push(34u8);
    out.push(44u8);
    out.push(34u8);
    out.push(98u8);
    out.push(114u8);
    out.push(105u8);
    out.push(100u8);
    out.push(103u8);
    out.push(101u8);
    out.push(95u8);
    out.push(105u8);
    out.push(50u8);
    out.push(99u8);
    out.push(34u8);
    out.push(58u8);
    proof {
        assert(out@ =~= old(out)@ + lit_bridge_i2c());
    }
}

/// `,"bridge_c2i":`
pub open spec fn lit_bridge_c2i() -> Seq<u8> {
    seq![44u8, 34u8, 98u8, 114u8, 105u8, 100u8, 103u8, 101u8, 95u8, 99u8, 50u8, 105u8, 34u8, 58u8]
}

fn push_lit_bridge_c2i(out: &mut Vec<u8>)
    ensures
        final(out)@ == old(out)@ + lit_bridge_c2i(),
{
    out.push(44u8);
    out.push(34u8);
    out.push(98u8);
    out.push(114u8);
    out.push(105u8);
    out.push(100u8);
    out.push(103u8);
    out.push(101u8);
    out.push(95u8);
    out.push(99u8);
    out.push(50u8);
    out.push(105u8);
    out.push(34u8);
    out.push(58u8);
    proof {
        assert(out@ =~= old(out)@ + lit_bridge_c2i());
    }
}

/// `,"bootstraps":{"v4":`
pub open spec fn lit_bootstraps_v4() -> Seq<u8> {
    seq![44u8, 34u8, 98u8, 111u8, 111u8, 116u8, 115u8, 116u8, 114u8, 97u8, 112u8, 115u8, 34u8, 58u8, 123u8, 34u8, 118u8, 52u8, 34u8, 58u8]
}

fn push_lit_bootstraps_v4(out: &mut Vec<u8>)
    ensures
        final(out)@ == old(out)@ + lit_bootstraps_v4(),
{
    out.push(44u8);
    out.push(34u8);
    out.push(98u8);
    out.push(111u8);
    out.push(111u8);
    out.push(116u8);
    out.push(115u8);
    out.push(116u8);
    out.push(114u8);
    out.push(97u8);
    out.push(112u8);
    out.push(115u8);
    out.push(34u8);
    out.push(58u8);
    out.push(123u8);
    out.push(34u8);
    out.push(118u8);
    out.push(52u8);
    out.push(34u8);
    out.push(58u8);
    proof {
        assert(out@ =~= old(out)@ + lit_bootstraps_v4());
    }
}

/// `,"v6":`
pub open spec fn lit_v6() -> Seq<u8> {
    seq![44u8, 34u8, 118u8, 54u8, 34u8, 58u8]
}

fn push_lit_v6(out: &mut Vec<u8>)
    ensures
        final(out)@ == old(out)@ + lit_v6(),
{
    out.push(44u8);
    out.push(34u8);
    out.push(118u8);
    out.push(54u8);
    out.push(34u8);
    out.push(58u8);
    proof {
        assert(out@ =~= old(out)@ + lit_v6());
    }
}

/// `},"requests":`
pub open spec fn lit_requests() -> Seq<u8> {
    seq![125u8, 44u8, 34u8, 114u8, 101u8, 113u8, 117u8, 101u8, 115u8, 116u8, 115u8, 34u8, 58u8]
}

fn push_lit_requests(out: &mut Vec<u8>)
    ensures
        final(out)@ == old(out)@ + lit_requests(),
{
    out.push(125u8);
    out.push(44u8);
    out.push(34u8);
    out.push(114u8);
    out.push(101u8);
    out.push(113u8);
    out.push(117u8);
    out.push(101u8);
    out.push(115u8);
    out.push(116u8);
    out.push(115u8);
    out.push(34u8);
    out.push(58u8);
    proof {
        assert(out@ =~= old(out)@ + lit_requests());
    }
}

/// `,"aux":`
pub open spec fn lit_aux() -> Seq<u8> {
    seq![44u8, 34u8, 97u8, 117u8, 120u8, 34u8, 58u8]
}

fn push_lit_aux(out: &mut Vec<u8>)
    ensures
        final(out)@ == old(out)@ + lit_aux(),
{
    out.push(44u8);
    out.push(34u8);
    out.push(97u8);
    out.push(117u8);
    out.push(120u8);
    out.push(34u8);
    out.push(58u8);
    proof {
        assert(out@ =~= old(out)@ + lit_aux());
    }
}

/// `{"histogram":{"scale":`
pub open spec fn lit_hist_open() -> Seq<u8> {
    seq![123u8, 34u8, 104u8, 105u8, 115u8, 116u8, 111u8, 103u8, 114u8, 97u8, 109u8, 34u8, 58u8, 123u8, 34u8, 115u8, 99u8, 97u8, 108u8, 101u8, 34u8, 58u8]
}

fn push_lit_hist_open(out: &mut Vec<u8>)
    ensures
        final(out)@ == old(out)@ + lit_hist_open(),
{
    out.push(123u8);
    out.push(34u8);
    out.push(104u8);
    out.push(105u8);
    out.push(115u8);
    out.push(116u8);
    out.push(111u8);
    out.push(103u8);
    out.push(114u8);
    out.push(97u8);
    out.push(109u8);
    out.push(34u8);
    out.push(58u8);
    out.push(123u8);
    out.push(34u8);
    out.push(115u8);
    out.push(99u8);
    out.push(97u8);
    out.push(108u8);
    out.push(101u8);
    out.push(34u8);
    out.push(58u8);
    proof {
        assert(out@ =~= old(out)@ + lit_hist_open());
    }
}

/// `,"buckets":{`
pub open spec fn lit_buckets() -> Seq<u8> {
    seq![44u8, 34u8, 98u8, 117u8, 99u8, 107u8, 101u8, 116u8, 115u8, 34u8, 58u8, 123u8]
}

fn push_lit_buckets(out: &mut Vec<u8>)
    ensures
        final(out)@ == old(out)@ + lit_buckets(),
{
    out.push(44u8);
    out.push(34u8);
    out.push(98u8);
    out.push(117u8);
    out.push(99u8);
    out.push(107u8);
    out.push(101u8);
    out.push(116u8);
    out.push(115u8);
    out.push(34u8);
    out.push(58u8);
    out.push(123u8);
    proof {
        assert(out@ =~= old(out)@ + lit_buckets());
    }
}

/// `},"more":`
pub open spec fn lit_more() -> Seq<u8> {
    seq![125u8, 44u8, 34u8, 109u8, 111u8, 114u8, 101u8, 34u8, 58u8]
}

fn push_lit_more(out: &mut Vec<u8>)
    ensures
        final(out)@ == old(out)@ + lit_more(),
{
    out.push(125u8);
    out.push(44u8);
    out.push(34u8);
    out.push(109u8);
    out.push(111u8);
    out.push(114u8);
    out.push(101u8);
    out.push(34u8);
    out.push(58u8);
    proof {
        assert(out@ =~= old(out)@ + lit_more());
    }
}

/// `},"unfinished":`
pub open spec fn lit_unfinished() -> Seq<u8> {
    seq![125u8, 44u8, 34u8, 117u8, 110u8, 102u8, 105u8, 110u8, 105u8, 115u8, 104u8, 101u8, 100u8, 34u8, 58u8]
}

fn push_lit_unfinished(out: &mut Vec<u8>)
    ensures
        final(out)@ == old(out)@ + lit_unfinished(),
{
    out.push(125u8);
    out.push(44u8);
    out.push(34u8);
    out.push(117u8);
    out.push(110u8);
    out.push(102u8);
    out.push(105u8);
    out.push(110u8);
    out.push(105u8);
    out.push(115u8);
    out.push(104u8);
    out.push(101u8);
    out.push(100u8);
    out.push(34u8);
    out.push(58u8);
    proof {
        assert(out@ =~= old(out)@ + lit_unfinished());
    }
}

/// `,"min":`
pub open spec fn lit_min() -> Seq<u8> {
    seq![44u8, 34u8, 109u8, 105u8, 110u8, 34u8, 58u8]
}

fn push_lit_min(out: &mut Vec<u8>)
    ensures
        final(out)@ == old(out)@ + lit_min(),
{
    out.push(44u8);
    out.push(34u8);
    out.push(109u8);
    out.push(105u8);
    out.push(110u8);
    out.push(34u8);
    out.push(58u8);
    proof {
        assert(out@ =~= old(out)@ + lit_min());
    }
}

/// `,"max":`
pub open spec fn lit_max() -> Seq<u8> {
    seq![44u8, 34u8, 109u8, 97u8, 120u8, 34u8, 58u8]
}

fn push_lit_max(out: &mut Vec<u8>)
    ensures
        final(out)@ == old(out)@ + lit_max(),
{
    out.push(44u8);
    out.push(34u8);
    out.push(109u8);
    out.push(97u8);
    out.push(120u8);
    out.push(34u8);
    out.push(58u8);
    proof {
        assert(out@ =~= old(out)@ + lit_max());
    }
}

/// `null`
pub open spec fn lit_null() -> Seq<u8> {
    seq![110u8, 117u8, 108u8, 108u8]
}

fn push_lit_null(out: &mut Vec<u8>)
    ensures
        final(out)@ == old(out)@ + lit_null(),
{
    out.push(110u8);
    out.push(117u8);
    out.push(108u8);
    out.push(108u8);
    proof {
        assert(out@ =~= old(out)@ + lit_null());
    }
}

/// `{"success_count":`
pub open spec fn lit_success_count() -> Seq<u8> {
    seq![123u8, 34u8, 115u8, 117u8, 99u8, 99u8, 101u8, 115u8, 115u8, 95u8, 99u8, 111u8, 117u8, 110u8, 116u8, 34u8, 58u8]
}

fn push_lit_success_count(out: &mut Vec<u8>)
    ensures
        final(out)@ == old(out)@ + lit_success_count(),
{
    out.push(123u8);
    out.push(34u8);
    out.push(115u8);
    out.push(117u8);
    out.push(99u8);
    out.push(99u8);
    out.push(101u8);
    out.push(115u8);
    out.push(115u8);
    out.push(95u8);
    out.push(99u8);
    out.push(111u8);
    out.push(117u8);
    out.push(110u8);
    out.push(116u8);
    out.push(34u8);
    out.push(58u8);
    proof {
        assert(out@ =~= old(out)@ + lit_success_count());
    }
}

/// `,"failure_count":`
pub open spec fn lit_failure_count() -> Seq<u8> {
    seq![44u8, 34u8, 102u8, 97u8, 105u8, 108u8, 117u8, 114u8, 101u8, 95u8, 99u8, 111u8, 117u8, 110u8, 116u8, 34u8, 58u8]
}

fn push_lit_failure_count(out: &mut Vec<u8>)
    ensures
        final(out)@ == old(out)@ + lit_failure_count(),
{
    out.push(44u8);
    out.push(34u8);
    out.push(102u8);
    out.push(97u8);
    out.push(105u8);
    out.push(108u8);
    out.push(117u8);
    out.push(114u8);
    out.push(101u8);
    out.push(95u8);
    out.push(99u8);
    out.push(111u8);
    out.push(117u8);
    out.push(110u8);
    out.push(116u8);
    out.push(34u8);
    out.push(58u8);
    proof {
        assert(out@ =~= old(out)@ + lit_failure_count());
    }
}

/// `,"transferred":`
pub open spec fn lit_transferred() -> Seq<u8> {
    seq![44u8, 34u8, 116u8, 114u8, 97u8, 110u8, 115u8, 102u8, 101u8, 114u8, 114u8, 101u8, 100u8, 34u8, 58u8]
}

fn push_lit_transferred(out: &mut Vec<u8>)
    ensures
        final(out)@ == old(out)@ + lit_transferred(),
{
    out.push(44u8);
    out.push(34u8);
    out.push(116u8);
    out.push(114u8);
    out.push(97u8);
    out.push(110u8);
    out.push(115u8);
    out.push(102u8);
    out.push(101u8);
    out.push(114u8);
    out.push(114u8);
    out.push(101u8);
    out.push(100u8);
    out.push(34u8);
    out.push(58u8);
    proof {
        assert(out@ =~= old(out)@ + lit_transferred());
    }
}

/// The JSON key of request-type slot `k`, quoted and followed by a colon.
pub open spec fn request_key(k: int) -> Seq<u8> {
    if k == 0 {
        seq![34u8, 111u8, 114u8, 105u8, 103u8, 105u8, 110u8, 34u8, 58u8]
    } else if k == 1 {
        seq![34u8, 105u8, 110u8, 106u8, 101u8, 99u8, 116u8, 111u8, 114u8, 95u8, 112u8, 114u8, 105u8, 118u8, 97u8, 116u8, 101u8, 34u8, 58u8]
    } else if k == 2 {
        seq![34u8, 105u8, 110u8, 106u8, 101u8, 99u8, 116u8, 111u8, 114u8, 95u8, 112u8, 117u8, 98u8, 108u8, 105u8, 99u8, 34u8, 58u8]
    } else if k == 3 {
        seq![34u8, 99u8, 97u8, 99u8, 104u8, 101u8, 95u8, 105u8, 110u8, 34u8, 58u8]
    } else {
        seq![34u8, 99u8, 97u8, 99u8, 104u8, 101u8, 95u8, 111u8, 117u8, 116u8, 34u8, 58u8]
    }
}

fn push_request_key(out: &mut Vec<u8>, k: usize)
    requires
        k < 5,
    ensures
        final(out)@ == old(out)@ + request_key(k as int),
{
    if k == 0 {
        out.push(34u8);
        out.push(111u8);
        out.push(114u8);
        out.push(105u8);
        out.push(103u8);
        out.push(105u8);
        out.push(110u8);
        out.push(34u8);
        out.push(58u8);
    } else if k == 1 {
        out.push(34u8);
        out.push(105u8);
        out.push(110u8);
        out.push(106u8);
        out.push(101u8);
        out.push(99u8);
        out.push(116u8);
        out.push(111u8);
        out.push(114u8);
        out.push(95u8);
        out.push(112u8);
        out.push(114u8);
        out.push(105u8);
        out.push(118u8);
        out.push(97u8);
        out.push(116u8);
        out.push(101u8);
        out.push(34u8);
        out.push(58u8);
    } else if k == 2 {
        out.push(34u8);
        out.push(105u8);
        out.push(110u8);
        out.push(106u8);
        out.push(101u8);
        out.push(99u8);
        out.push(116u8);
        out.push(111u8);
        out.push(114u8);
        out.push(95u8);
        out.push(112u8);
        out.push(117u8);
        out.push(98u8);
        out.push(108u8);
        out.push(105u8);
        out.push(99u8);
        out.push(34u8);
        out.push(58u8);
    } else if k == 3 {
        out.push(34u8);
        out.push(99u8);
        out.push(97u8);
        out.push(99u8);
        out.push(104u8);
        out.push(101u8);
        out.push(95u8);
        out.push(105u8);
        out.push(110u8);
        out.push(34u8);
        out.push(58u8);
    } else {
        out.push(34u8);
        out.push(99u8);
        out.push(97u8);
        out.push(99u8);
        out.push(104u8);
        out.push(101u8);
        out.push(95u8);
        out.push(111u8);
        out.push(117u8);
        out.push(116u8);
        out.push(34u8);
        out.push(58u8);
    }
    proof {
        assert(out@ =~= old(out)@ + request_key(k as int));
    }
}


/// JSON escape of one byte: the two-character escapes of the control
/// set, `\u00XX` for the remaining control bytes, everything else as is.
pub open spec fn esc_byte(b: u8) -> Seq<u8> {
    if b == 34 {
        seq![92u8, 34u8]
    } else if b == 92 {
        seq![92u8, 92u8]
    } else if b == 8 {
        seq![92u8, 98u8]
    } else if b == 9 {
        seq![92u8, 116u8]
    } else if b == 10 {
        seq![92u8, 110u8]
    } else if b == 12 {
        seq![92u8, 102u8]
    } else if b == 13 {
        seq![92u8, 114u8]
    } else if b < 32 {
        seq![92u8, 117u8, 48u8, 48u8, crate::encoding::hex_digit((b / 16) as nat), crate::encoding::hex_digit((b % 16) as nat)]
    } else {
        seq![b]
    }
}

/// JSON escape of a byte string.
pub open spec fn esc_bytes(s: Seq<u8>) -> Seq<u8>
    decreases s.len(),
{
    if s.len() == 0 {
        Seq::empty()
    } else {
        esc_bytes(s.drop_last()) + esc_byte(s.last())
    }
}

/// A quoted, escaped JSON string.
pub open spec fn json_string(s: Seq<u8>) -> Seq<u8> {
    seq![34u8] + esc_bytes(s) + seq![34u8]
}

fn push_json_escaped(out: &mut Vec<u8>, s: &[u8])
    ensures
        final(out)@ == old(out)@ + esc_bytes(s@),
{
    let ghost base = out@;
    let n = s.len();
    let mut i: usize = 0;
    proof {
        assert(s@.subrange(0, 0) =~= Seq::<u8>::empty());
        assert(out@ =~= base + esc_bytes(s@.subrange(0, 0)));
    }
    while i < n
        invariant
            n == s@.len(),
            0 <= i <= n,
            out@ == base + esc_bytes(s@.subrange(0, i as int)),
        decreases n - i,
    {
        let b = s[i];
        proof {
            assert(s@.subrange(0, i as int + 1).drop_last() =~= s@.subrange(0, i as int));
            assert(s@.subrange(0, i as int + 1).last() == s@[i as int]);
        }
        if b == 34 {
            out.push(92u8);
            out.push(34u8);
        } else if b == 92 {
            out.push(92u8);
            out.push(92u8);
        } else if b == 8 {
            out.push(92u8);
            out.push(98u8);
        } else if b == 9 {
            out.push(92u8);
            out.push(116u8);
        } else if b == 10 {
            out.push(92u8);
            out.push(110u8);
        } else if b == 12 {
            out.push(92u8);
            out.push(102u8);
        } else if b == 13 {
            out.push(92u8);
            out.push(114u8);
        } else if b < 32 {
            out.push(92u8);
            out.push(117u8);
            out.push(48u8);
            out.push(48u8);
            let hi = b / 16;
            let lo = b % 16;
            out.push(if hi < 10 { 48 + hi } else { 87 + hi });
            out.push(if lo < 10 { 48 + lo } else { 87 + lo });
        } else {
            out.push(b);
        }
        proof {
            assert(out@ =~= base + esc_bytes(s@.subrange(0, i as int + 1)));
        }
        i = i + 1;
    }
    proof {
        assert(s@.subrange(0, n as int) =~= s@);
    }
}

fn push_json_string(out: &mut Vec<u8>, s: &[u8])
    ensures
        final(out)@ == old(out)@ + json_string(s@),
{
    out.push(34u8);
    push_json_escaped(out, s);
    out.push(34u8);
    proof {
        assert(out@ =~= old(out)@ + json_string(s@));
    }
}

fn push_dec(out: &mut Vec<u8>, n: u64)
    ensures
        final(out)@ == old(out)@ + dec_bytes(n as nat),
{
    let mut digits = u64_to_dec(n);
    out.append(&mut digits);
}

fn push_dec_pad(out: &mut Vec<u8>, n: u64, width: usize)
    ensures
        final(out)@ == old(out)@ + zero_pad(dec_bytes(n as nat), width as nat),
{
    let mut digits = u64_to_dec_pad(n, width);
    out.append(&mut digits);
}

/// `null` for a missing value, the decimal number for a present one.
pub open spec fn opt_dec(o: Option<u64>) -> Seq<u8> {
    match o {
        None => lit_null(),
        Some(v) => dec_bytes(v as nat),
    }
}

fn push_opt_dec(out: &mut Vec<u8>, o: Option<u64>)
    ensures
        final(out)@ == old(out)@ + opt_dec(o),
{
    match o {
        None => push_lit_null(out),
        Some(v) => push_dec(out, v),
    }
}

/// The non-empty bucket entries of the histogram object, from bucket
/// `k` on; `first` says whether no entry has been emitted yet.
pub open spec fn hist_entries(ds: Seq<u64>, k: nat, first: bool) -> Seq<u8>
    decreases 10 - k,
{
    if k >= 10 {
        Seq::empty()
    } else {
        let c = count_in_bucket(ds, 200, k);
        if c == 0 {
            hist_entries(ds, k + 1, first)
        } else {
            (if first {
                Seq::<u8>::empty()
            } else {
                seq![44u8]
            }) + seq![34u8] + dec_bytes(k) + seq![34u8, 58u8] + dec_bytes(c) + hist_entries(
                ds,
                k + 1,
                false,
            )
        }
    }
}

/// One bootstrap side: the histogram of successful durations, the count
/// of unfinished attempts, and the least and greatest durations.
pub open spec fn bootstrap_side(t: Seq<(usize, BootstrapState)>) -> Seq<u8> {
    let ds = success_durations(t);
    lit_hist_open() + dec_bytes(200) + lit_buckets() + hist_entries(ds, 0, true) + lit_more()
        + dec_bytes(count_unassigned(ds, 200, 10)) + lit_unfinished() + dec_bytes(count_started(t))
        + lit_min() + opt_dec(min_of(ds)) + lit_max() + opt_dec(max_of(ds)) + seq![125u8]
}

/// Successful durations are no more numerous than the table entries.
proof fn lemma_success_durations_le(t: Seq<(usize, BootstrapState)>)
    ensures
        success_durations(t).len() <= t.len(),
    decreases t.len(),
{
    if t.len() > 0 {
        lemma_success_durations_le(t.drop_last());
    }
}

fn push_bootstrap_side(out: &mut Vec<u8>, table: &Vec<(usize, BootstrapState)>)
    requires
        table@.len() <= u32::MAX,
    ensures
        final(out)@ == old(out)@ + bootstrap_side(table@),
{
    proof {
        lemma_success_durations_le(table@);
    }
    let ds = collect_success_durations(table);
    let hist = ExponentialHistogram::new(200, 10, &ds);
    push_lit_hist_open(out);
    push_dec(out, 200);
    push_lit_buckets(out);
    let ghost mid = out@;
    let mut k: usize = 0;
    let mut first: bool = true;
    while k < 10
        invariant
            0 <= k <= 10,
            hist.buckets@.len() == 10,
            hist.scale == 200,
            forall|j: int|
                0 <= j < 10 ==> (#[trigger] hist.buckets@[j]) as nat == count_in_bucket(
                    ds@,
                    200,
                    j as nat,
                ),
            mid + hist_entries(ds@, 0, true) == out@ + hist_entries(ds@, k as nat, first),
        decreases 10 - k,
    {
        let c: u32 = *vstd::std_specs::vec::vec_index(&hist.buckets, k);
        if c > 0 {
            if !first {
                out.push(44u8);
            }
            out.push(34u8);
            push_dec(out, k as u64);
            out.push(34u8);
            out.push(58u8);
            push_dec(out, c as u64);
            first = false;
        }
        k = k + 1;
    }
    push_lit_more(out);
    push_dec(out, hist.more as u64);
    push_lit_unfinished(out);
    let started = count_started_in(table);
    proof {
        crate::bootstrap::lemma_count_started_le_pub(table@);
    }
    push_dec(out, started as u64);
    push_lit_min(out);
    push_opt_dec(out, min_of_values(&ds));
    push_lit_max(out);
    push_opt_dec(out, max_of_values(&ds));
    out.push(125u8);
    proof {
        assert(out@ =~= old(out)@ + bootstrap_side(table@));
    }
}

/// The request-tally entries of the populated slots, from slot `k` on.
pub open spec fn request_entries(sums: Seq<Option<Summary>>, k: nat, first: bool) -> Seq<u8>
    decreases 5 - k,
{
    if k >= 5 {
        Seq::empty()
    } else {
        match sums[k as int] {
            None => request_entries(sums, k + 1, first),
            Some(s) => (if first {
                Seq::<u8>::empty()
            } else {
                seq![44u8]
            }) + request_key(k as int) + summary_object(s) + request_entries(sums, k + 1, false),
        }
    }
}

/// One request-tally object.
pub open spec fn summary_object(s: Summary) -> Seq<u8> {
    lit_success_count() + dec_bytes(s.success_count as nat) + lit_failure_count() + dec_bytes(
        s.failure_count as nat,
    ) + lit_transferred() + dec_bytes(s.transferred as nat) + seq![125u8]
}

/// The whole request-tally member.
pub open spec fn requests_object(sums: Seq<Option<Summary>>) -> Seq<u8> {
    seq![123u8] + request_entries(sums, 0, true) + seq![125u8]
}

fn push_summary_object(out: &mut Vec<u8>, s: &Summary)
    ensures
        final(out)@ == old(out)@ + summary_object(*s),
{
    push_lit_success_count(out);
    push_dec(out, s.success_count);
    push_lit_failure_count(out);
    push_dec(out, s.failure_count);
    push_lit_transferred(out);
    push_dec(out, s.transferred);
    out.push(125u8);
    proof {
        assert(out@ =~= old(out)@ + summary_object(*s));
    }
}

fn push_requests_object(out: &mut Vec<u8>, sums: &Vec<Option<Summary>>)
    requires
        sums@.len() == 5,
    ensures
        final(out)@ == old(out)@ + requests_object(sums@),
{
    out.push(123u8);
    let ghost mid = out@;
    let mut k: usize = 0;
    let mut first: bool = true;
    while k < 5
        invariant
            0 <= k <= 5,
            sums@.len() == 5,
            mid + request_entries(sums@, 0, true) == out@ + request_entries(
                sums@,
                k as nat,
                first,
            ),
        decreases 5 - k,
    {
        let cur: Option<Summary> = *vstd::std_specs::vec::vec_index(sums, k);
        match cur {
            None => (),
            Some(s) => {
                if !first {
                    out.push(44u8);
                }
                push_request_key(out, k);
                push_summary_object(out, &s);
                first = false;
            },
        }
        k = k + 1;
    }
    out.push(125u8);
    proof {
        assert(out@ =~= old(out)@ + requests_object(sums@));
    }
}

/// The auxiliary entries from index `i` on, in insertion order.
pub open spec fn aux_entries(es: Seq<(String, String)>, i: nat) -> Seq<u8>
    decreases es.len() - i,
{
    if i >= es.len() {
        Seq::empty()
    } else {
        (if i == 0 {
            Seq::<u8>::empty()
        } else {
            seq![44u8]
        }) + json_string(encode_utf8(es[i as int].0@)) + seq![58u8] + json_string(
            encode_utf8(es[i as int].1@),
        ) + aux_entries(es, i + 1)
    }
}

/// The whole auxiliary member.
pub open spec fn aux_object(es: Seq<(String, String)>) -> Seq<u8> {
    seq![123u8] + aux_entries(es, 0) + seq![125u8]
}

fn push_aux_object(out: &mut Vec<u8>, es: &Vec<(String, String)>)
    ensures
        final(out)@ == old(out)@ + aux_object(es@),
{
    out.push(123u8);
    let ghost mid = out@;
    let n = es.len();
    let mut i: usize = 0;
    while i < n
        invariant
            n == es@.len(),
            0 <= i <= n,
            mid + aux_entries(es@, 0) == out@ + aux_entries(es@, i as nat),
        decreases n - i,
    {
        let entry: &(String, String) = vstd::std_specs::vec::vec_index(es, i);
        if i > 0 {
            out.push(44u8);
        }
        push_json_string(out, entry.0.as_str().as_bytes());
        out.push(58u8);
        push_json_string(out, entry.1.as_str().as_bytes());
        i = i + 1;
    }
    out.push(125u8);
    proof {
        assert(out@ =~= old(out)@ + aux_object(es@));
    }
}

/// Every byte of the payload, as a function of what was collected.
pub open spec fn payload_bytes(
    os: Seq<char>,
    iso_year: u64,
    iso_week: u64,
    weekday1: u64,
    hour: u64,
    bridge_i2c: u64,
    bridge_c2i: u64,
    v4: Seq<(usize, BootstrapState)>,
    v6: Seq<(usize, BootstrapState)>,
    sums: Seq<Option<Summary>>,
    aux: Seq<(String, String)>,
) -> Seq<u8> {
    lit_os_open() + json_string(encode_utf8(os)) + lit_interval() + zero_pad(
        dec_bytes(iso_year as nat),
        4,
    ) + seq![58u8] + zero_pad(dec_bytes(iso_week as nat), 2) + seq![58u8] + zero_pad(
        dec_bytes(weekday1 as nat),
        2,
    ) + seq![58u8] + zero_pad(dec_bytes(hour as nat), 2) + lit_bridge_i2c() + dec_bytes(
        bridge_i2c as nat,
    ) + lit_bridge_c2i() + dec_bytes(bridge_c2i as nat) + lit_bootstraps_v4() + bootstrap_side(v4)
        + lit_v6() + bootstrap_side(v6) + lit_requests() + requests_object(sums) + lit_aux()
        + aux_object(aux) + seq![125u8]
}

/// Assemble the payload.
pub fn build_payload(
    os: &String,
    week: &WholeWeek,
    hour: &WholeHour,
    bridge_i2c: u64,
    bridge_c2i: u64,
    v4: &Vec<(usize, BootstrapState)>,
    v6: &Vec<(usize, BootstrapState)>,
    sums: &Vec<Option<Summary>>,
    aux: &Vec<(String, String)>,
) -> (r: Vec<u8>)
    requires
        v4@.len() <= u32::MAX,
        v6@.len() <= u32::MAX,
        sums@.len() == 5,
    ensures
        r@ == payload_bytes(
            os@,
            week.iso_year,
            week.iso_week,
            hour.weekday1,
            hour.hour,
            bridge_i2c,
            bridge_c2i,
            v4@,
            v6@,
            sums@,
            aux@,
        ),
{
    let mut out: Vec<u8> = Vec::new();
    push_lit_os_open(&mut out);
    push_json_string(&mut out, os.as_str().as_bytes());
    push_lit_interval(&mut out);
    push_dec_pad(&mut out, week.iso_year, 4);
    out.push(58u8);
    push_dec_pad(&mut out, week.iso_week, 2);
    out.push(58u8);
    push_dec_pad(&mut out, hour.weekday1, 2);
    out.push(58u8);
    push_dec_pad(&mut out, hour.hour, 2);
    push_lit_bridge_i2c(&mut out);
    push_dec(&mut out, bridge_i2c);
    push_lit_bridge_c2i(&mut out);
    push_dec(&mut out, bridge_c2i);
    push_lit_bootstraps_v4(&mut out);
    push_bootstrap_side(&mut out, v4);
    push_lit_v6(&mut out);
    push_bootstrap_side(&mut out, v6);
    push_lit_requests(&mut out);
    push_requests_object(&mut out, sums);
    push_lit_aux(&mut out);
    push_aux_object(&mut out, aux);
    out.push(125u8);
    proof {
        assert(out@ =~= payload_bytes(
            os@,
            week.iso_year,
            week.iso_week,
            hour.weekday1,
            hour.hour,
            bridge_i2c,
            bridge_c2i,
            v4@,
            v6@,
            sums@,
            aux@,
        ));
    }
    out
}

} // verus!
