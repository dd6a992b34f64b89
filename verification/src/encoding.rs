//! Byte-level encoders and parsers for the textual pieces of the on-disk
//! formats: ASCII decimal numbers, fixed-width hexadecimal, and the
//! hyphenated 128-bit identifier form.  Every encoder has a parser that
//! inverts it, proved below.

use vstd::prelude::*;
use vstd::slice::slice_subrange;
use vstd::arithmetic::div_mod::{lemma_div_denominator, lemma_fundamental_div_mod};

verus! {

/// Decimal digit character for a value below ten.
pub open spec fn dec_digit(d: nat) -> u8
    recommends
        d < 10,
{
    (48 + d) as u8
}

/// The ASCII decimal representation of `n`, most significant digit first.
pub open spec fn dec_bytes(n: nat) -> Seq<u8>
    decreases n,
{
    if n < 10 {
        seq![dec_digit(n)]
    } else {
        dec_bytes(n / 10).push(dec_digit(n % 10))
    }
}

pub open spec fn is_dec_digit(b: u8) -> bool {
    48 <= b <= 57
}

/// Numeric value of a sequence of decimal digit bytes.
pub open spec fn dec_value(s: Seq<u8>) -> nat
    decreases s.len(),
{
    if s.len() == 0 {
        0
    } else {
        dec_value(s.drop_last()) * 10 + (if is_dec_digit(s.last()) {
            (s.last() - 48) as nat
        } else {
            0
        })
    }
}

pub open spec fn all_dec_digits(s: Seq<u8>) -> bool {
    forall|i: int| 0 <= i < s.len() ==> is_dec_digit(#[trigger] s[i])
}

/// `dec_bytes` produces digits only.
pub proof fn lemma_dec_bytes_digits(n: nat)
    ensures
        all_dec_digits(dec_bytes(n)),
        dec_bytes(n).len() >= 1,
    decreases n,
{
    if n < 10 {
    } else {
        lemma_dec_bytes_digits(n / 10);
        let s = dec_bytes(n);
        assert forall|i: int| 0 <= i < s.len() implies is_dec_digit(#[trigger] s[i]) by {
            if i < s.len() - 1 {
                assert(s[i] == dec_bytes(n / 10)[i]);
            }
        }
    }
}

/// Parsing inverts printing.
pub proof fn lemma_dec_roundtrip(n: nat)
    ensures
        dec_value(dec_bytes(n)) == n,
    decreases n,
{
    if n < 10 {
        let s = dec_bytes(n);
        assert(s.drop_last() =~= Seq::<u8>::empty());
        assert(s.last() == dec_digit(n));
        assert(is_dec_digit(dec_digit(n)));
        assert(dec_value(s) == dec_value(s.drop_last()) * 10 + (s.last() - 48));
    } else {
        lemma_dec_roundtrip(n / 10);
        let s = dec_bytes(n);
        assert(s.drop_last() =~= dec_bytes(n / 10));
        assert(s.last() == dec_digit(n % 10));
        assert(is_dec_digit(dec_digit(n % 10)));
        assert(dec_value(s) == (n / 10) * 10 + n % 10);
    }
}

/// Appending digits never shrinks the value.
pub proof fn lemma_dec_value_prefix(s: Seq<u8>, t: Seq<u8>)
    requires
        s.len() <= t.len(),
        forall|i: int| 0 <= i < s.len() ==> s[i] == t[i],
    ensures
        dec_value(t) >= dec_value(s),
    decreases t.len(),
{
    if t.len() > s.len() {
        lemma_dec_value_prefix(s, t.drop_last());
    } else if t.len() > 0 {
        assert(s =~= t);
    } else {
        assert(s =~= t);
    }
}

/// Print `n` in ASCII decimal.
pub fn u64_to_dec(n: u64) -> (r: Vec<u8>)
    ensures
        r@ == dec_bytes(n as nat),
    decreases n,
{
    if n < 10 {
        let mut v: Vec<u8> = Vec::new();
        v.push(48 + (n as u8));
        v
    } else {
        let mut v = u64_to_dec(n / 10);
        v.push(48 + ((n % 10) as u8));
        v
    }
}

/// Parse an ASCII decimal number.  Returns the value exactly when the
/// input is a nonempty, all-digit string whose value fits in `u64`.
pub fn parse_u64_dec(s: &[u8]) -> (r: Option<u64>)
    ensures
        match r {
            Some(v) => s@.len() > 0 && all_dec_digits(s@) && v as nat == dec_value(s@),
            None => s@.len() == 0 || !all_dec_digits(s@) || dec_value(s@) > u64::MAX,
        },
{
    if s.len() == 0 {
        return None;
    }
    let mut acc: u64 = 0;
    let mut i: usize = 0;
    while i < s.len()
        invariant
            0 <= i <= s@.len(),
            s@.len() > 0,
            all_dec_digits(s@.subrange(0, i as int)),
            acc as nat == dec_value(s@.subrange(0, i as int)),
        decreases s@.len() - i,
    {
        let b = s[i];
        if b < 48 || b > 57 {
            assert(!is_dec_digit(s@[i as int]));
            return None;
        }
        let d = (b - 48) as u64;
        if acc > (u64::MAX - d) / 10 {
            proof {
                let pre = s@.subrange(0, i as int + 1);
                assert(pre.drop_last() =~= s@.subrange(0, i as int));
                assert(dec_value(pre) == acc * 10 + d);
                assert(acc * 10 + d > u64::MAX) by (nonlinear_arith)
                    requires
                        acc > (u64::MAX - d) / 10,
                        d <= 9,
                        acc <= u64::MAX,
                ;
                lemma_dec_value_prefix(pre, s@);
            }
            return None;
        }
        proof {
            assert(acc * 10 + d <= u64::MAX) by (nonlinear_arith)
                requires
                    acc <= (u64::MAX - d) / 10,
                    d <= 9,
            ;
            let pre = s@.subrange(0, i as int + 1);
            assert(pre.drop_last() =~= s@.subrange(0, i as int));
            assert(pre.last() == s@[i as int]);
        }
        acc = acc * 10 + d;
        i = i + 1;
    }
    proof {
        assert(s@.subrange(0, s@.len() as int) =~= s@);
    }
    Some(acc)
}

/// Parse a `u32` the same way.
pub fn parse_u32_dec(s: &[u8]) -> (r: Option<u32>)
    ensures
        match r {
            Some(v) => s@.len() > 0 && all_dec_digits(s@) && v as nat == dec_value(s@),
            None => s@.len() == 0 || !all_dec_digits(s@) || dec_value(s@) > u32::MAX,
        },
{
    match parse_u64_dec(s) {
        Some(v) => if v <= u32::MAX as u64 {
            Some(v as u32)
        } else {
            None
        },
        None => {
            proof {
                if !(s@.len() == 0 || !all_dec_digits(s@)) {
                    assert(dec_value(s@) > u64::MAX >= u32::MAX);
                }
            }
            None
        },
    }
}

/// Lowercase hexadecimal digit character for a value below sixteen.
pub open spec fn hex_digit(d: nat) -> u8
    recommends
        d < 16,
{
    if d < 10 {
        (48 + d) as u8
    } else {
        (87 + d) as u8
    }
}

/// Fixed-width lowercase hexadecimal representation of `n`.
pub open spec fn hex_bytes(n: nat, width: nat) -> Seq<u8>
    decreases width,
{
    if width == 0 {
        Seq::empty()
    } else {
        hex_bytes(n / 16, (width - 1) as nat).push(hex_digit(n % 16))
    }
}

/// Value of a hexadecimal digit byte, accepting both letter cases.
pub open spec fn hex_digit_value(b: u8) -> nat {
    if 48 <= b <= 57 {
        (b - 48) as nat
    } else if 97 <= b <= 102 {
        (b - 87) as nat
    } else if 65 <= b <= 70 {
        (b - 55) as nat
    } else {
        16
    }
}

pub open spec fn is_hex_digit(b: u8) -> bool {
    hex_digit_value(b) < 16
}

/// Numeric value of a sequence of hexadecimal digit bytes.
pub open spec fn hex_value(s: Seq<u8>) -> nat
    decreases s.len(),
{
    if s.len() == 0 {
        0
    } else {
        hex_value(s.drop_last()) * 16 + (if is_hex_digit(s.last()) {
            hex_digit_value(s.last())
        } else {
            0
        })
    }
}

pub open spec fn all_hex_digits(s: Seq<u8>) -> bool {
    forall|i: int| 0 <= i < s.len() ==> is_hex_digit(#[trigger] s[i])
}

pub proof fn lemma_hex_bytes_digits(n: nat, width: nat)
    ensures
        all_hex_digits(hex_bytes(n, width)),
        hex_bytes(n, width).len() == width,
    decreases width,
{
    if width > 0 {
        lemma_hex_bytes_digits(n / 16, (width - 1) as nat);
        let s = hex_bytes(n, width);
        assert forall|i: int| 0 <= i < s.len() implies is_hex_digit(#[trigger] s[i]) by {
            if i < s.len() - 1 {
                assert(s[i] == hex_bytes(n / 16, (width - 1) as nat)[i]);
            }
        }
    }
}

/// Parsing fixed-width hexadecimal inverts printing, when `n` fits.
pub proof fn lemma_hex_roundtrip(n: nat, width: nat)
    requires
        n < pow16(width),
    ensures
        hex_value(hex_bytes(n, width)) == n,
    decreases width,
{
    if width == 0 {
    } else {
        assert(pow16(width) == 16 * pow16((width - 1) as nat));
        assert(n / 16 < pow16((width - 1) as nat)) by (nonlinear_arith)
            requires
                n < 16 * pow16((width - 1) as nat),
        ;
        lemma_hex_roundtrip(n / 16, (width - 1) as nat);
        let s = hex_bytes(n, width);
        assert(s.drop_last() =~= hex_bytes(n / 16, (width - 1) as nat));
        assert(is_hex_digit(hex_digit(n % 16)));
        assert(hex_digit_value(hex_digit(n % 16)) == n % 16);
    }
}

/// Sixteen to the given power.
pub open spec fn pow16(e: nat) -> nat
    decreases e,
{
    if e == 0 {
        1
    } else {
        16 * pow16((e - 1) as nat)
    }
}

/// Concrete values of the small base powers used by the identifier form.
pub proof fn lemma_pow16_values()
    ensures
        pow16(4) == 0x10000,
        pow16(8) == 0x100000000,
        pow16(12) == 0x1000000000000,
{
    reveal_with_fuel(pow16, 13);
}

/// Print the low `width` hexadecimal digits of `n`; requires `n` to fit.
pub fn u128_to_hex(n: u128, width: usize) -> (r: Vec<u8>)
    requires
        width <= 32,
    ensures
        r@ == hex_bytes(n as nat, width as nat),
        r@.len() == width,
    decreases width,
{
    proof {
        lemma_hex_bytes_digits(n as nat, width as nat);
    }
    if width == 0 {
        Vec::new()
    } else {
        let mut v = u128_to_hex(n / 16, width - 1);
        let d = (n % 16) as u8;
        if d < 10 {
            v.push(48 + d);
        } else {
            v.push(87 + d);
        }
        v
    }
}

/// A run of ASCII zero digits.
pub open spec fn zeros(k: nat) -> Seq<u8> {
    Seq::new(k, |i: int| 48u8)
}

/// `s` left-padded with zero digits to width `w` (unchanged when it is
/// already at least that wide).
pub open spec fn zero_pad(s: Seq<u8>, w: nat) -> Seq<u8> {
    if s.len() >= w {
        s
    } else {
        zeros((w - s.len()) as nat) + s
    }
}

/// Leading zero digits change neither the digit property nor the value.
pub proof fn lemma_zeros_value(k: nat, s: Seq<u8>)
    ensures
        dec_value(zeros(k) + s) == dec_value(s),
        all_dec_digits(s) ==> all_dec_digits(zeros(k) + s),
    decreases s.len(),
{
    if s.len() == 0 {
        assert(zeros(k) + s =~= zeros(k));
        lemma_zeros_value_base(k);
    } else {
        lemma_zeros_value(k, s.drop_last());
        assert((zeros(k) + s).drop_last() =~= zeros(k) + s.drop_last());
        assert((zeros(k) + s).last() == s.last());
        let t = zeros(k) + s;
        if all_dec_digits(s) {
            assert forall|i: int| 0 <= i < t.len() implies is_dec_digit(#[trigger] t[i]) by {
                if i < k {
                    assert(t[i] == 48u8);
                } else {
                    assert(t[i] == s[i - k]);
                }
            }
        }
    }
}

proof fn lemma_zeros_value_base(k: nat)
    ensures
        dec_value(zeros(k)) == 0,
        all_dec_digits(zeros(k)),
    decreases k,
{
    if k > 0 {
        lemma_zeros_value_base((k - 1) as nat);
        assert(zeros(k).drop_last() =~= zeros((k - 1) as nat));
        assert(zeros(k).last() == 48u8);
    }
}

/// Ten to the given power.
pub open spec fn pow10(e: nat) -> nat
    decreases e,
{
    if e == 0 {
        1
    } else {
        10 * pow10((e - 1) as nat)
    }
}

/// The value of a digit run is bounded by the base power of its width.
pub proof fn lemma_dec_value_bound(s: Seq<u8>)
    ensures
        dec_value(s) < pow10(s.len()),
    decreases s.len(),
{
    if s.len() == 0 {
    } else {
        lemma_dec_value_bound(s.drop_last());
        assert(pow10(s.len()) == 10 * pow10((s.len() - 1) as nat));
        let prev = dec_value(s.drop_last());
        let d = if is_dec_digit(s.last()) {
            (s.last() - 48) as nat
        } else {
            0
        };
        assert(prev * 10 + d < 10 * pow10((s.len() - 1) as nat)) by (nonlinear_arith)
            requires
                prev < pow10((s.len() - 1) as nat),
                d < 10,
        ;
    }
}

/// Powers of ten never decrease with the exponent.
pub proof fn lemma_pow10_le(a: nat, b: nat)
    requires
        a <= b,
    ensures
        pow10(a) <= pow10(b),
    decreases b,
{
    if a < b {
        lemma_pow10_le(a, (b - 1) as nat);
        assert(pow10(b) == 10 * pow10((b - 1) as nat));
    }
}

/// A number below `10^w` prints in at most `w` digits.
pub proof fn lemma_dec_bytes_len(n: nat, w: nat)
    requires
        n < pow10(w),
        w >= 1,
    ensures
        dec_bytes(n).len() <= w,
    decreases w,
{
    if n < 10 {
    } else {
        assert(pow10(w) == 10 * pow10((w - 1) as nat));
        assert(n / 10 < pow10((w - 1) as nat)) by (nonlinear_arith)
            requires
                n < 10 * pow10((w - 1) as nat),
                n >= 10,
        ;
        lemma_dec_bytes_len(n / 10, (w - 1) as nat);
    }
}

/// Print `n` in ASCII decimal, left-padded with zeros to `width`.
pub fn u64_to_dec_pad(n: u64, width: usize) -> (r: Vec<u8>)
    ensures
        r@ == zero_pad(dec_bytes(n as nat), width as nat),
        all_dec_digits(r@),
        dec_value(r@) == n as nat,
        r@.len() >= width,
        r@.len() >= dec_bytes(n as nat).len(),
{
    let digits = u64_to_dec(n);
    proof {
        lemma_dec_bytes_digits(n as nat);
        lemma_dec_roundtrip(n as nat);
    }
    let mut out: Vec<u8> = Vec::new();
    let mut k: usize = digits.len();
    while k < width
        invariant
            digits@.len() <= k <= (if width >= digits@.len() {
                width as nat
            } else {
                digits@.len()
            }),
            out@ =~= zeros((k - digits@.len()) as nat),
        decreases width - k,
    {
        out.push(48u8);
        proof {
            assert(out@ =~= zeros((k + 1 - digits@.len()) as nat));
        }
        k = k + 1;
    }
    let mut tail = digits;
    out.append(&mut tail);
    proof {
        assert(out@ =~= zero_pad(dec_bytes(n as nat), width as nat));
        lemma_zeros_value(
            (if width as nat >= dec_bytes(n as nat).len() {
                width as nat - dec_bytes(n as nat).len()
            } else {
                0
            }) as nat,
            dec_bytes(n as nat),
        );
    }
    out
}

/// First position at or past `from` holding `sep`, or the length.
pub open spec fn sep_at(s: Seq<u8>, from: int, sep: u8) -> int
    decreases s.len() - from,
{
    if from < 0 || from >= s.len() {
        s.len() as int
    } else if s[from] == sep {
        from
    } else {
        sep_at(s, from + 1, sep)
    }
}

/// A scan that found `sep` first at `i` agrees with `sep_at`.
pub proof fn lemma_sep_at_found(s: Seq<u8>, from: int, sep: u8, i: int)
    requires
        0 <= from <= i < s.len(),
        s[i] == sep,
        forall|j: int| from <= j < i ==> s[j] != sep,
    ensures
        sep_at(s, from, sep) == i,
    decreases s.len() - from,
{
    if from < i {
        lemma_sep_at_found(s, from + 1, sep, i);
    }
}

pub proof fn lemma_sep_at_absent(s: Seq<u8>, from: int, sep: u8)
    requires
        0 <= from <= s.len(),
        forall|j: int| from <= j < s.len() ==> s[j] != sep,
    ensures
        sep_at(s, from, sep) == s.len(),
    decreases s.len() - from,
{
    if from < s.len() {
        lemma_sep_at_absent(s, from + 1, sep);
    }
}

/// Find the first separator at or past `from`.
pub fn find_sep(s: &[u8], from: usize, sep: u8) -> (r: usize)
    requires
        from <= s@.len(),
    ensures
        r == sep_at(s@, from as int, sep),
        from <= r <= s@.len(),
{
    let n = s.len();
    let mut i: usize = from;
    while i < n
        invariant
            from <= i <= n,
            n == s@.len(),
            forall|j: int| from <= j < i ==> s@[j] != sep,
        decreases n - i,
    {
        if s[i] == sep {
            proof {
                lemma_sep_at_found(s@, from as int, sep, i as int);
            }
            return i;
        }
        i = i + 1;
    }
    proof {
        lemma_sep_at_absent(s@, from as int, sep);
    }
    n
}

/// Hyphen byte used by the identifier text form.
pub open spec fn hyphen() -> Seq<u8> {
    seq![45u8]
}

/// The hyphenated lowercase-hex text form of a 128-bit identifier:
/// five hexadecimal groups of 8, 4, 4, 4 and 12 digits.
pub open spec fn uuid_text(v: nat) -> Seq<u8> {
    hex_bytes(v / 0x1000000000000000000000000, 8) + hyphen() + hex_bytes(
        (v / 0x100000000000000000000) % 0x10000,
        4,
    ) + hyphen() + hex_bytes((v / 0x10000000000000000) % 0x10000, 4) + hyphen() + hex_bytes(
        (v / 0x1000000000000) % 0x10000,
        4,
    ) + hyphen() + hex_bytes(v % 0x1000000000000, 12)
}

/// Value encoded by a well-formed identifier text.
pub open spec fn uuid_text_value(s: Seq<u8>) -> nat {
    hex_value(s.subrange(0, 8)) * 0x1000000000000000000000000 + hex_value(s.subrange(9, 13))
        * 0x100000000000000000000 + hex_value(s.subrange(14, 18)) * 0x10000000000000000 + hex_value(
        s.subrange(19, 23),
    ) * 0x1000000000000 + hex_value(s.subrange(24, 36))
}

/// Shape of a parseable identifier text: 36 bytes, hyphens at the four
/// fixed positions, hexadecimal digits everywhere else.
pub open spec fn is_uuid_text(s: Seq<u8>) -> bool {
    &&& s.len() == 36
    &&& s[8] == 45u8
    &&& s[13] == 45u8
    &&& s[18] == 45u8
    &&& s[23] == 45u8
    &&& all_hex_digits(s.subrange(0, 8))
    &&& all_hex_digits(s.subrange(9, 13))
    &&& all_hex_digits(s.subrange(14, 18))
    &&& all_hex_digits(s.subrange(19, 23))
    &&& all_hex_digits(s.subrange(24, 36))
}

/// Print a 128-bit identifier in its hyphenated text form.
pub fn format_uuid(v: u128) -> (r: Vec<u8>)
    ensures
        r@ == uuid_text(v as nat),
        r@.len() == 36,
{
    let mut out = u128_to_hex(v / 0x1000000000000000000000000, 8);
    out.push(45u8);
    let mut g2 = u128_to_hex((v / 0x100000000000000000000) % 0x10000, 4);
    out.append(&mut g2);
    out.push(45u8);
    let mut g3 = u128_to_hex((v / 0x10000000000000000) % 0x10000, 4);
    out.append(&mut g3);
    out.push(45u8);
    let mut g4 = u128_to_hex((v / 0x1000000000000) % 0x10000, 4);
    out.append(&mut g4);
    out.push(45u8);
    let mut g5 = u128_to_hex(v % 0x1000000000000, 12);
    out.append(&mut g5);
    proof {
        assert(out@ =~= uuid_text(v as nat));
    }
    out
}

/// Parse a run of hexadecimal digit bytes.
fn parse_hex_run(s: &[u8]) -> (r: Option<u128>)
    requires
        s@.len() <= 12,
    ensures
        match r {
            Some(v) => all_hex_digits(s@) && v as nat == hex_value(s@),
            None => !all_hex_digits(s@),
        },
{
    let mut acc: u128 = 0;
    let mut i: usize = 0;
    proof {
        assert(s@.subrange(0, 0) =~= Seq::<u8>::empty());
        lemma_pow16_monotone(0, 12);
    }
    while i < s.len()
        invariant
            0 <= i <= s@.len() <= 12,
            all_hex_digits(s@.subrange(0, i as int)),
            acc as nat == hex_value(s@.subrange(0, i as int)),
            acc < pow16(i as nat),
            pow16(i as nat) <= pow16(12),
        decreases s@.len() - i,
    {
        let b = s[i];
        let d: u8 = if 48 <= b && b <= 57 {
            b - 48
        } else if 97 <= b && b <= 102 {
            b - 87
        } else if 65 <= b && b <= 70 {
            b - 55
        } else {
            assert(!is_hex_digit(s@[i as int]));
            return None;
        };
        proof {
            assert(is_hex_digit(s@[i as int]));
            assert(d as nat == hex_digit_value(s@[i as int]));
            let pre = s@.subrange(0, i as int + 1);
            assert(pre.drop_last() =~= s@.subrange(0, i as int));
            assert(pre.last() == s@[i as int]);
            assert(pow16((i + 1) as nat) == 16 * pow16(i as nat));
            lemma_pow16_monotone((i + 1) as nat, 12);
            assert(acc * 16 + d < 16 * pow16(i as nat)) by (nonlinear_arith)
                requires
                    acc < pow16(i as nat),
                    d < 16,
            ;
            lemma_pow16_values();
        }
        acc = acc * 16 + (d as u128);
        i = i + 1;
    }
    proof {
        assert(s@.subrange(0, s@.len() as int) =~= s@);
    }
    Some(acc)
}

proof fn lemma_pow16_monotone(a: nat, b: nat)
    requires
        a <= b,
    ensures
        pow16(a) <= pow16(b),
    decreases b,
{
    if a < b {
        lemma_pow16_monotone(a, (b - 1) as nat);
        assert(pow16(b) == 16 * pow16((b - 1) as nat));
    }
}

/// Parse the hyphenated identifier text form.  Succeeds exactly on
/// well-shaped inputs and returns the encoded value.
pub fn parse_uuid(s: &[u8]) -> (r: Option<u128>)
    ensures
        match r {
            Some(v) => is_uuid_text(s@) && v as nat == uuid_text_value(s@),
            None => !is_uuid_text(s@),
        },
{
    if s.len() != 36 {
        return None;
    }
    if !(s[8] == 45 && s[13] == 45 && s[18] == 45 && s[23] == 45) {
        return None;
    }
    let g1 = match parse_hex_run(slice_subrange(s, 0, 8)) {
        Some(v) => v,
        None => {
            return None;
        },
    };
    let g2 = match parse_hex_run(slice_subrange(s, 9, 13)) {
        Some(v) => v,
        None => {
            return None;
        },
    };
    let g3 = match parse_hex_run(slice_subrange(s, 14, 18)) {
        Some(v) => v,
        None => {
            return None;
        },
    };
    let g4 = match parse_hex_run(slice_subrange(s, 19, 23)) {
        Some(v) => v,
        None => {
            return None;
        },
    };
    let g5 = match parse_hex_run(slice_subrange(s, 24, 36)) {
        Some(v) => v,
        None => {
            return None;
        },
    };
    proof {
        lemma_hex_value_bound(s@.subrange(0, 8));
        lemma_hex_value_bound(s@.subrange(9, 13));
        lemma_hex_value_bound(s@.subrange(14, 18));
        lemma_hex_value_bound(s@.subrange(19, 23));
        lemma_hex_value_bound(s@.subrange(24, 36));
        lemma_pow16_values();
        assert(g1 * 0x1000000000000000000000000 + g2 * 0x100000000000000000000 + g3
            * 0x10000000000000000 + g4 * 0x1000000000000 + g5 <= u128::MAX) by (nonlinear_arith)
            requires
                g1 < 0x100000000,
                g2 < 0x10000,
                g3 < 0x10000,
                g4 < 0x10000,
                g5 < 0x1000000000000,
        ;
    }
    Some(
        g1 * 0x1000000000000000000000000 + g2 * 0x100000000000000000000 + g3 * 0x10000000000000000
            + g4 * 0x1000000000000 + g5,
    )
}

/// The value of a digit run is bounded by the base power of its width.
pub proof fn lemma_hex_value_bound(s: Seq<u8>)
    ensures
        hex_value(s) < pow16(s.len()),
    decreases s.len(),
{
    if s.len() == 0 {
    } else {
        lemma_hex_value_bound(s.drop_last());
        assert(pow16(s.len()) == 16 * pow16((s.len() - 1) as nat));
        let prev = hex_value(s.drop_last());
        let d = if is_hex_digit(s.last()) {
            hex_digit_value(s.last())
        } else {
            0
        };
        assert(prev * 16 + d < 16 * pow16((s.len() - 1) as nat)) by (nonlinear_arith)
            requires
                prev < pow16((s.len() - 1) as nat),
                d < 16,
        ;
    }
}

/// Printing and parsing the identifier text form are mutually inverse.
pub proof fn lemma_uuid_roundtrip(v: u128)
    ensures
        is_uuid_text(uuid_text(v as nat)),
        uuid_text_value(uuid_text(v as nat)) == v as nat,
{
    let n = v as nat;
    let g1 = n / 0x1000000000000000000000000;
    let g2 = (n / 0x100000000000000000000) % 0x10000;
    let g3 = (n / 0x10000000000000000) % 0x10000;
    let g4 = (n / 0x1000000000000) % 0x10000;
    let g5 = n % 0x1000000000000;
    let s = uuid_text(n);
    lemma_hex_bytes_digits(g1, 8);
    lemma_hex_bytes_digits(g2, 4);
    lemma_hex_bytes_digits(g3, 4);
    lemma_hex_bytes_digits(g4, 4);
    lemma_hex_bytes_digits(g5, 12);
    assert(s.subrange(0, 8) =~= hex_bytes(g1, 8));
    assert(s.subrange(9, 13) =~= hex_bytes(g2, 4));
    assert(s.subrange(14, 18) =~= hex_bytes(g3, 4));
    assert(s.subrange(19, 23) =~= hex_bytes(g4, 4));
    assert(s.subrange(24, 36) =~= hex_bytes(g5, 12));
    lemma_pow16_values();
    assert(g1 < 0x100000000) by (nonlinear_arith)
        requires
            g1 == n / 0x1000000000000000000000000,
            n < 0x100000000000000000000000000000000,
    ;
    lemma_hex_roundtrip(g1, 8);
    lemma_hex_roundtrip(g2, 4);
    lemma_hex_roundtrip(g3, 4);
    lemma_hex_roundtrip(g4, 4);
    lemma_hex_roundtrip(g5, 12);
    lemma_uuid_recompose(n);
}

/// A 128-bit value is recovered from its five hexadecimal groups.
proof fn lemma_uuid_recompose(n: nat)
    requires
        n < 0x100000000000000000000000000000000,
    ensures
        (n / 0x1000000000000000000000000) * 0x1000000000000000000000000 + ((n
            / 0x100000000000000000000) % 0x10000) * 0x100000000000000000000 + ((n
            / 0x10000000000000000) % 0x10000) * 0x10000000000000000 + ((n / 0x1000000000000)
            % 0x10000) * 0x1000000000000 + n % 0x1000000000000 == n,
{
    let ni = n as int;
    let g = 0x10000int;
    let p48 = 0x1000000000000int;
    let p64 = 0x10000000000000000int;
    let p80 = 0x100000000000000000000int;
    let p96 = 0x1000000000000000000000000int;
    lemma_fundamental_div_mod(ni, p48);
    lemma_fundamental_div_mod(ni / p48, g);
    lemma_fundamental_div_mod(ni / p64, g);
    lemma_fundamental_div_mod(ni / p80, g);
    lemma_div_denominator(ni, p48, g);
    lemma_div_denominator(ni, p64, g);
    lemma_div_denominator(ni, p80, g);
    assert(p48 * g == p64);
    assert(p64 * g == p80);
    assert(p80 * g == p96);
    assert((ni / p48) / g == ni / p64);
    assert((ni / p64) / g == ni / p80);
    assert((ni / p80) / g == ni / p96);
    assert(ni == p48 * (ni / p48) + ni % p48);
    assert(ni / p48 == g * (ni / p64) + (ni / p48) % g);
    assert(ni / p64 == g * (ni / p80) + (ni / p64) % g);
    assert(ni / p80 == g * (ni / p96) + (ni / p80) % g);
}

} // verus!
