//! The UTC timestamp text of the persisted files.  Printing always
//! yields the fixed `YYYY-MM-DDTHH:MM:SS.mmmZ` form; parsing accepts
//! the wider family `YYYY-MM-DDTHH:MM:SSZ` with an optional fraction of
//! one to nine digits, so files written with other fractional
//! precisions are read back rather than treated as corrupt.  Printing
//! and parsing are exact inverses on the printed form.

use vstd::prelude::*;
use vstd::arithmetic::div_mod::lemma_fundamental_div_mod;
use vstd::slice::slice_subrange;
use crate::calendar::{
    civil_from_days, day_limit, day_number, days_from_civil, is_valid_date, lemma_day_limit_small,
    lemma_day_number_in_range,
};
use crate::encoding::{
    all_dec_digits, dec_bytes, dec_value, is_dec_digit, lemma_dec_bytes_len, lemma_dec_value_bound,
    parse_u64_dec, pow10, u64_to_dec_pad, zero_pad,
};
use crate::{DAY_MS, HOUR_MS};

verus! {

/// Milliseconds in one minute.
pub const MINUTE_MS: u64 = 60_000;

/// Shape of a timestamp text: the fixed date-time prefix whose digit
/// runs form a valid date and time of day, closed by `Z`, with an
/// optional fraction of one to nine digits after a dot.
pub open spec fn is_timestamp_text(s: Seq<u8>) -> bool {
    &&& s.len() >= 20
    &&& s[4] == 45u8
    &&& s[7] == 45u8
    &&& s[10] == 84u8
    &&& s[13] == 58u8
    &&& s[16] == 58u8
    &&& s.last() == 90u8
    &&& all_dec_digits(s.subrange(0, 4))
    &&& all_dec_digits(s.subrange(5, 7))
    &&& all_dec_digits(s.subrange(8, 10))
    &&& all_dec_digits(s.subrange(11, 13))
    &&& all_dec_digits(s.subrange(14, 16))
    &&& all_dec_digits(s.subrange(17, 19))
    &&& is_valid_date(
        dec_value(s.subrange(0, 4)) as int,
        dec_value(s.subrange(5, 7)) as int,
        dec_value(s.subrange(8, 10)) as int,
    )
    &&& dec_value(s.subrange(11, 13)) < 24
    &&& dec_value(s.subrange(14, 16)) < 60
    &&& dec_value(s.subrange(17, 19)) < 60
    &&& (s.len() == 20 || (s.len() >= 22 && s.len() <= 30 && s[19] == 46u8 && all_dec_digits(
        s.subrange(20, s.len() - 1),
    )))
}

/// The whole milliseconds a timestamp text's fraction denotes: the
/// fraction scaled to three digits, further digits cut off.
pub open spec fn frac_ms(s: Seq<u8>) -> int {
    if s.len() == 20 {
        0
    } else {
        let k = s.len() - 21;
        if k <= 3 {
            (dec_value(s.subrange(20, s.len() - 1)) * pow10((3 - k) as nat)) as int
        } else {
            dec_value(s.subrange(20, 23)) as int
        }
    }
}

/// The instant a timestamp text denotes, in milliseconds since the
/// epoch, sub-millisecond digits cut off.
pub open spec fn timestamp_value(s: Seq<u8>) -> int {
    day_number(
        dec_value(s.subrange(0, 4)) as int,
        dec_value(s.subrange(5, 7)) as int,
        dec_value(s.subrange(8, 10)) as int,
    ) * (DAY_MS as int) + dec_value(s.subrange(11, 13)) * (HOUR_MS as int) + dec_value(
        s.subrange(14, 16),
    ) * (MINUTE_MS as int) + dec_value(s.subrange(17, 19)) * 1000 + frac_ms(s)
}

/// No byte of a timestamp text is a quotation mark, so a quote scan
/// finds the end of a quoted timestamp field exactly.
pub proof fn lemma_timestamp_no_quote(s: Seq<u8>)
    requires
        is_timestamp_text(s),
    ensures
        forall|j: int| 0 <= j < s.len() ==> s[j] != 34u8,
{
    assert forall|j: int| 0 <= j < s.len() implies s[j] != 34u8 by {
        if j == 4 || j == 7 {
        } else if j == 10 || j == 13 || j == 16 {
        } else if j == s.len() - 1 {
        } else if j < 4 {
            assert(is_dec_digit(s.subrange(0, 4)[j]));
        } else if j < 7 {
            assert(is_dec_digit(s.subrange(5, 7)[j - 5]));
        } else if j < 10 {
            assert(is_dec_digit(s.subrange(8, 10)[j - 8]));
        } else if j < 13 {
            assert(is_dec_digit(s.subrange(11, 13)[j - 11]));
        } else if j < 16 {
            assert(is_dec_digit(s.subrange(14, 16)[j - 14]));
        } else if j < 19 {
            assert(is_dec_digit(s.subrange(17, 19)[j - 17]));
        } else if j == 19 {
        } else {
            assert(is_dec_digit(s.subrange(20, s.len() - 1)[j - 20]));
        }
    }
}

/// Print the timestamp text of an instant, in the fixed
/// three-digit-fraction form.  Defined exactly for the instants the
/// calendar covers.
pub fn format_timestamp(ms: u64) -> (r: Vec<u8>)
    requires
        (ms as int / DAY_MS as int) < day_limit(),
    ensures
        is_timestamp_text(r@),
        timestamp_value(r@) == ms as int,
        r@.len() == 24,
{
    let day = ms / DAY_MS;
    let (y, mo, d) = civil_from_days(day);
    let rem = ms % DAY_MS;
    let h = rem / HOUR_MS;
    let rem2 = rem % HOUR_MS;
    let mi = rem2 / MINUTE_MS;
    let rem3 = rem2 % MINUTE_MS;
    let sec = rem3 / 1000;
    let frac = rem3 % 1000;
    proof {
        lemma_fundamental_div_mod(ms as int, DAY_MS as int);
        lemma_fundamental_div_mod(rem as int, HOUR_MS as int);
        lemma_fundamental_div_mod(rem2 as int, MINUTE_MS as int);
        lemma_fundamental_div_mod(rem3 as int, 1000);
        assert(h < 24 && mi < 60 && sec < 60) by (nonlinear_arith)
            requires
                h == rem as int / HOUR_MS as int,
                mi == rem2 as int / MINUTE_MS as int,
                sec == rem3 as int / 1000,
                rem < 86_400_000,
                rem2 < 3_600_000,
                rem3 < 60_000,
                HOUR_MS == 3_600_000,
                MINUTE_MS == 60_000,
        ;
        lemma_day_number_in_range(y as int, mo as int, d as int);
        assert(y < 10000 && pow10(4) == 10000 && pow10(2) == 100 && pow10(3) == 1000 && pow10(0)
            == 1) by {
            reveal_with_fuel(pow10, 5);
        }
        lemma_dec_bytes_len(y as nat, 4);
        lemma_dec_bytes_len(mo as nat, 2);
        lemma_dec_bytes_len(d as nat, 2);
        lemma_dec_bytes_len(h as nat, 2);
        lemma_dec_bytes_len(mi as nat, 2);
        lemma_dec_bytes_len(sec as nat, 2);
        lemma_dec_bytes_len(frac as nat, 3);
    }
    let mut out = u64_to_dec_pad(y, 4);
    out.push(45u8);
    let mut part = u64_to_dec_pad(mo, 2);
    out.append(&mut part);
    out.push(45u8);
    let mut part = u64_to_dec_pad(d, 2);
    out.append(&mut part);
    out.push(84u8);
    let mut part = u64_to_dec_pad(h, 2);
    out.append(&mut part);
    out.push(58u8);
    let mut part = u64_to_dec_pad(mi, 2);
    out.append(&mut part);
    out.push(58u8);
    let mut part = u64_to_dec_pad(sec, 2);
    out.append(&mut part);
    out.push(46u8);
    let mut part = u64_to_dec_pad(frac, 3);
    out.append(&mut part);
    out.push(90u8);
    proof {
        let s = out@;
        assert(s.subrange(0, 4) =~= zero_pad(dec_bytes(y as nat), 4));
        assert(s.subrange(5, 7) =~= zero_pad(dec_bytes(mo as nat), 2));
        assert(s.subrange(8, 10) =~= zero_pad(dec_bytes(d as nat), 2));
        assert(s.subrange(11, 13) =~= zero_pad(dec_bytes(h as nat), 2));
        assert(s.subrange(14, 16) =~= zero_pad(dec_bytes(mi as nat), 2));
        assert(s.subrange(17, 19) =~= zero_pad(dec_bytes(sec as nat), 2));
        assert(s.subrange(20, 23) =~= zero_pad(dec_bytes(frac as nat), 3));
        assert(s.subrange(20, s.len() - 1) =~= s.subrange(20, 23));
        assert(frac_ms(s) == (dec_value(s.subrange(20, 23)) * pow10(0)) as int);
        assert(frac_ms(s) == frac as int);
    }
    out
}

/// Parse a timestamp text.  Succeeds exactly on the accepted family
/// and returns the denoted instant.
pub fn parse_timestamp(s: &[u8]) -> (r: Option<u64>)
    ensures
        match r {
            Some(v) => is_timestamp_text(s@) && v as int == timestamp_value(s@),
            None => !is_timestamp_text(s@),
        },
{
    if s.len() < 20 {
        return None;
    }
    if !(s[4] == 45 && s[7] == 45 && s[10] == 84 && s[13] == 58 && s[16] == 58) {
        return None;
    }
    if s[s.len() - 1] != 90 {
        return None;
    }
    proof {
        crate::encoding::lemma_dec_value_bound(s@.subrange(0, 4));
        crate::encoding::lemma_dec_value_bound(s@.subrange(5, 7));
        crate::encoding::lemma_dec_value_bound(s@.subrange(8, 10));
        crate::encoding::lemma_dec_value_bound(s@.subrange(11, 13));
        crate::encoding::lemma_dec_value_bound(s@.subrange(14, 16));
        crate::encoding::lemma_dec_value_bound(s@.subrange(17, 19));
        assert(pow10(4) == 10000 && pow10(2) == 100 && pow10(3) == 1000 && pow10(1) == 10 && pow10(
            0,
        ) == 1) by {
            reveal_with_fuel(pow10, 5);
        }
    }
    let y = match parse_u64_dec(slice_subrange(s, 0, 4)) {
        Some(v) => v,
        None => {
            return None;
        },
    };
    let mo = match parse_u64_dec(slice_subrange(s, 5, 7)) {
        Some(v) => v,
        None => {
            return None;
        },
    };
    let d = match parse_u64_dec(slice_subrange(s, 8, 10)) {
        Some(v) => v,
        None => {
            return None;
        },
    };
    let h = match parse_u64_dec(slice_subrange(s, 11, 13)) {
        Some(v) => v,
        None => {
            return None;
        },
    };
    let mi = match parse_u64_dec(slice_subrange(s, 14, 16)) {
        Some(v) => v,
        None => {
            return None;
        },
    };
    let sec = match parse_u64_dec(slice_subrange(s, 17, 19)) {
        Some(v) => v,
        None => {
            return None;
        },
    };
    // The fraction: absent, or a dot and one to nine digits.
    let frac: u64;
    if s.len() == 20 {
        frac = 0;
    } else {
        if !(s.len() >= 22 && s.len() <= 30 && s[19] == 46) {
            return None;
        }
        let k = s.len() - 21;
        proof {
            lemma_dec_value_bound(s@.subrange(20, s@.len() - 1));
            crate::encoding::lemma_pow10_le((s@.len() - 21) as nat, 9);
            assert(pow10(9) == 1_000_000_000) by {
                reveal_with_fuel(pow10, 10);
            }
        }
        let digits = match parse_u64_dec(slice_subrange(s, 20, s.len() - 1)) {
            Some(v) => v,
            None => {
                return None;
            },
        };
        if k <= 3 {
            frac = digits * (if k == 1 {
                100
            } else if k == 2 {
                10
            } else {
                1
            });
        } else {
            proof {
                lemma_dec_value_bound(s@.subrange(20, 23));
                assert(all_dec_digits(s@.subrange(20, 23))) by {
                    assert forall|i: int| 0 <= i < 3 implies is_dec_digit(
                        #[trigger] s@.subrange(20, 23)[i],
                    ) by {
                        assert(s@.subrange(20, 23)[i] == s@.subrange(20, s@.len() - 1)[i]);
                    }
                }
            }
            let top = match parse_u64_dec(slice_subrange(s, 20, 23)) {
                Some(v) => v,
                None => {
                    return None;
                },
            };
            frac = top;
        }
    }
    if !(1970 <= y && y < 10000 && 1 <= mo && mo <= 12) {
        return None;
    }
    let dim = crate::calendar::month_days(y, mo);
    if !(1 <= d && d <= dim) {
        return None;
    }
    if !(h < 24 && mi < 60 && sec < 60) {
        return None;
    }
    let daynum = days_from_civil(y, mo, d);
    proof {
        lemma_day_limit_small();
    }
    Some(daynum * DAY_MS + h * HOUR_MS + mi * MINUTE_MS + sec * 1000 + frac)
}

} // verus!
