//! The fixed-width paginated text/binary hybrid log.
//!
//! The file opens with a text header (the first 59 lines) carrying
//! per-axis calibration gains and offsets and the volts/lux scale
//! denominators as integer values. The lines after the header are grouped
//! into fixed 10-line pages: within a page, text lines declare the page's
//! base time and measurement frequency, and the last line's raw bytes are
//! the packed binary sample block, 6 bytes per sample, decoded with the
//! bit field extractor into tri-axis acceleration, light and button-state
//! fields. Calibration is linear: `(raw - offset) / gain` per axis and
//! `raw * lux / volts` for light; this module computes the exact integer
//! numerators and keeps the divisors alongside, so the division — the one
//! lossy, fractional step — is left to the consumer.

use vstd::prelude::*;
use crate::timestamp::DecodeError;

verus! {

// --- ASCII decimal values ---

/// An ASCII decimal digit.
pub open spec fn is_digit(b: u8) -> bool {
    0x30 <= b && b <= 0x39
}

/// Every byte of `s` is a decimal digit.
pub open spec fn all_digits(s: Seq<u8>) -> bool {
    forall|i: int| 0 <= i < s.len() ==> is_digit(#[trigger] s[i])
}

/// The value of the first `n` bytes of `s` read as decimal digits.
pub open spec fn digits_value(s: Seq<u8>, n: int) -> int
    decreases n,
{
    if n <= 0 {
        0
    } else {
        digits_value(s, n - 1) * 10 + (s[n - 1] - 0x30)
    }
}

proof fn lemma_digits_value_nonneg(s: Seq<u8>, n: int)
    requires
        forall|i: int| 0 <= i < n ==> is_digit(#[trigger] s[i]),
    ensures
        digits_value(s, n) >= 0,
    decreases n,
{
    if n > 0 {
        lemma_digits_value_nonneg(s, n - 1);
    }
}

proof fn lemma_digits_value_monotone(s: Seq<u8>, a: int, b: int)
    requires
        0 <= a <= b,
        forall|i: int| 0 <= i < b ==> is_digit(#[trigger] s[i]),
    ensures
        digits_value(s, a) <= digits_value(s, b),
    decreases b,
{
    if a < b {
        lemma_digits_value_monotone(s, a, b - 1);
        lemma_digits_value_nonneg(s, b - 1);
    }
}

/// `s` is an optionally signed run of decimal digits.
pub open spec fn int_parseable(s: Seq<u8>) -> bool {
    if s.len() == 0 {
        false
    } else if s[0] == 0x2B || s[0] == 0x2D {
        s.len() >= 2 && all_digits(s.subrange(1, s.len() as int))
    } else {
        all_digits(s)
    }
}

/// The signed value `s` spells.
pub open spec fn int_value(s: Seq<u8>) -> int
    recommends
        int_parseable(s),
{
    if s.len() > 0 && s[0] == 0x2D {
        -digits_value(s.subrange(1, s.len() as int), s.len() - 1)
    } else if s.len() > 0 && s[0] == 0x2B {
        digits_value(s.subrange(1, s.len() as int), s.len() - 1)
    } else {
        digits_value(s, s.len() as int)
    }
}

/// `s` spells a value an `i32` can hold.
pub open spec fn i32_parseable(s: Seq<u8>) -> bool {
    int_parseable(s) && -0x8000_0000 <= int_value(s) <= 0x7fff_ffff
}

/// Parse an optionally signed ASCII decimal value: `Some` exactly when
/// the bytes spell an integer an `i32` can hold.
pub fn parse_i32(s: &[u8]) -> (r: Option<i32>)
    ensures
        i32_parseable(s@) ==> r == Some(int_value(s@) as i32),
        !i32_parseable(s@) ==> r is None,
{
    if s.len() == 0 {
        return None;
    }
    let first: u8 = *vstd::slice::slice_index_get(s, 0);
    let neg: bool = first == 0x2D;
    let start: usize = if first == 0x2D || first == 0x2B {
        1
    } else {
        0
    };
    if start == s.len() {
        return None;
    }
    let ghost digits = s@.subrange(start as int, s@.len() as int);
    let mut acc: u64 = 0;
    let mut i: usize = start;
    while i < s.len()
        invariant
            start <= i <= s@.len(),
            start < s@.len(),
            start == 0 || start == 1,
            start == 1 <==> (s@[0] == 0x2B || s@[0] == 0x2D),
            neg <==> (s@.len() > 0 && s@[0] == 0x2D),
            digits == s@.subrange(start as int, s@.len() as int),
            acc == digits_value(digits, i - start),
            acc <= 0x8000_0000,
            forall|k: int| 0 <= k < i - start ==> is_digit(#[trigger] digits[k]),
        decreases s@.len() - i,
    {
        let b: u8 = *vstd::slice::slice_index_get(s, i);
        if b < 0x30 || b > 0x39 {
            proof {
                assert(digits[i - start] == s@[i as int]);
                assert(!int_parseable(s@));
            }
            return None;
        }
        acc = acc * 10 + (b - 0x30) as u64;
        i = i + 1;
        proof {
            assert(digits[i - 1 - start] == s@[i - 1]);
            assert(acc == digits_value(digits, i - start));
        }
        if acc > 0x8000_0000 {
            proof {
                if start == 0 {
                    assert(digits =~= s@);
                }
                if i32_parseable(s@) {
                    assert(all_digits(digits));
                    lemma_digits_value_monotone(digits, i - start, digits.len() as int);
                    assert(digits_value(digits, digits.len() as int) >= acc);
                    assert(false);
                }
            }
            return None;
        }
    }
    proof {
        assert(digits.len() == s@.len() - start);
        assert(acc == digits_value(digits, digits.len() as int));
        if start == 0 {
            assert(digits =~= s@);
        }
        assert(all_digits(digits));
        assert(int_parseable(s@));
    }
    if neg {
        if acc == 0x8000_0000 {
            Some(i32::MIN)
        } else {
            Some(-(acc as i32))
        }
    } else {
        if acc > 0x7fff_ffff {
            None
        } else {
            Some(acc as i32)
        }
    }
}

// --- prefixes of the recognised header and page lines ---

/// The bytes of the text `x gain:`.
pub open spec fn px_gain() -> Seq<u8> {
    seq![0x78u8, 0x20, 0x67, 0x61, 0x69, 0x6E, 0x3A]
}

/// The bytes of the text `x offset:`.
pub open spec fn px_offset() -> Seq<u8> {
    seq![0x78u8, 0x20, 0x6F, 0x66, 0x66, 0x73, 0x65, 0x74, 0x3A]
}

/// The bytes of the text `y gain:`.
pub open spec fn py_gain() -> Seq<u8> {
    seq![0x79u8, 0x20, 0x67, 0x61, 0x69, 0x6E, 0x3A]
}

/// The bytes of the text `y offset:`.
pub open spec fn py_offset() -> Seq<u8> {
    seq![0x79u8, 0x20, 0x6F, 0x66, 0x66, 0x73, 0x65, 0x74, 0x3A]
}

/// The bytes of the text `z gain:`.
pub open spec fn pz_gain() -> Seq<u8> {
    seq![0x7Au8, 0x20, 0x67, 0x61, 0x69, 0x6E, 0x3A]
}

/// The bytes of the text `z offset:`.
pub open spec fn pz_offset() -> Seq<u8> {
    seq![0x7Au8, 0x20, 0x6F, 0x66, 0x66, 0x73, 0x65, 0x74, 0x3A]
}

/// The bytes of the text `Volts:`.
pub open spec fn p_volts() -> Seq<u8> {
    seq![0x56u8, 0x6F, 0x6C, 0x74, 0x73, 0x3A]
}

/// The bytes of the text `Lux:`.
pub open spec fn p_lux() -> Seq<u8> {
    seq![0x4Cu8, 0x75, 0x78, 0x3A]
}

/// The bytes of the text `Page Time:`.
pub open spec fn p_page_time() -> Seq<u8> {
    seq![0x50u8, 0x61, 0x67, 0x65, 0x20, 0x54, 0x69, 0x6D, 0x65, 0x3A]
}

/// The bytes of the text `Measurement Frequency:`.
pub open spec fn p_frequency() -> Seq<u8> {
    seq![
        0x4Du8, 0x65, 0x61, 0x73, 0x75, 0x72, 0x65, 0x6D, 0x65, 0x6E, 0x74, 0x20, 0x46, 0x72,
        0x65, 0x71, 0x75, 0x65, 0x6E, 0x63, 0x79, 0x3A,
    ]
}

/// `line` begins with `prefix`.
pub open spec fn starts_with(line: Seq<u8>, prefix: Seq<u8>) -> bool {
    line.len() >= prefix.len() && line.subrange(0, prefix.len() as int) == prefix
}

/// Whether the byte slice begins with the given prefix.
pub fn starts_with_bytes(line: &[u8], prefix: &[u8]) -> (r: bool)
    ensures
        r == starts_with(line@, prefix@),
{
    if line.len() < prefix.len() {
        return false;
    }
    let mut i: usize = 0;
    while i < prefix.len()
        invariant
            i <= prefix@.len(),
            prefix@.len() <= line@.len(),
            forall|k: int| 0 <= k < i ==> line@[k] == prefix@[k],
        decreases prefix@.len() - i,
    {
        if *vstd::slice::slice_index_get(line, i) != *vstd::slice::slice_index_get(prefix, i) {
            proof {
                assert(line@.subrange(0, prefix@.len() as int)[i as int] != prefix@[i as int]);
            }
            return false;
        }
        i = i + 1;
    }
    proof {
        assert(line@.subrange(0, prefix@.len() as int) =~= prefix@);
    }
    true
}

// --- the calibration header ---

/// The per-axis gains and offsets and the light-scale denominators the
/// header declares, in raw integer units.
#[derive(Clone, Copy, Debug, PartialEq, Eq, Structural)]
pub struct Calibration {
    pub x_gain: i32,
    pub x_offset: i32,
    pub y_gain: i32,
    pub y_offset: i32,
    pub z_gain: i32,
    pub z_offset: i32,
    pub volts: i32,
    pub lux: i32,
}

/// The calibration assumed before the header declares anything.
pub open spec fn default_calibration() -> Calibration {
    Calibration {
        x_gain: 0,
        x_offset: 0,
        y_gain: 0,
        y_offset: 0,
        z_gain: 0,
        z_offset: 0,
        volts: 1,
        lux: 0,
    }
}

/// What one header line does to the calibration: a recognised prefix
/// overwrites its field with the line's value (a recognised prefix whose
/// value does not parse is fatal), any other line changes nothing.
pub open spec fn apply_cal_line(c: Calibration, line: Seq<u8>) -> Result<
    Calibration,
    DecodeError,
> {
    if starts_with(line, px_gain()) {
        let rest = line.subrange(px_gain().len() as int, line.len() as int);
        if i32_parseable(rest) {
            Ok(Calibration { x_gain: int_value(rest) as i32, ..c })
        } else {
            Err(DecodeError::Framing)
        }
    } else if starts_with(line, px_offset()) {
        let rest = line.subrange(px_offset().len() as int, line.len() as int);
        if i32_parseable(rest) {
            Ok(Calibration { x_offset: int_value(rest) as i32, ..c })
        } else {
            Err(DecodeError::Framing)
        }
    } else if starts_with(line, py_gain()) {
        let rest = line.subrange(py_gain().len() as int, line.len() as int);
        if i32_parseable(rest) {
            Ok(Calibration { y_gain: int_value(rest) as i32, ..c })
        } else {
            Err(DecodeError::Framing)
        }
    } else if starts_with(line, py_offset()) {
        let rest = line.subrange(py_offset().len() as int, line.len() as int);
        if i32_parseable(rest) {
            Ok(Calibration { y_offset: int_value(rest) as i32, ..c })
        } else {
            Err(DecodeError::Framing)
        }
    } else if starts_with(line, pz_gain()) {
        let rest = line.subrange(pz_gain().len() as int, line.len() as int);
        if i32_parseable(rest) {
            Ok(Calibration { z_gain: int_value(rest) as i32, ..c })
        } else {
            Err(DecodeError::Framing)
        }
    } else if starts_with(line, pz_offset()) {
        let rest = line.subrange(pz_offset().len() as int, line.len() as int);
        if i32_parseable(rest) {
            Ok(Calibration { z_offset: int_value(rest) as i32, ..c })
        } else {
            Err(DecodeError::Framing)
        }
    } else if starts_with(line, p_volts()) {
        let rest = line.subrange(p_volts().len() as int, line.len() as int);
        if i32_parseable(rest) {
            Ok(Calibration { volts: int_value(rest) as i32, ..c })
        } else {
            Err(DecodeError::Framing)
        }
    } else if starts_with(line, p_lux()) {
        let rest = line.subrange(p_lux().len() as int, line.len() as int);
        if i32_parseable(rest) {
            Ok(Calibration { lux: int_value(rest) as i32, ..c })
        } else {
            Err(DecodeError::Framing)
        }
    } else {
        Ok(c)
    }
}

/// The calibration after the first `n` lines, folded in order from the
/// default.
pub open spec fn scan_cal(lines: Seq<Seq<u8>>, n: int) -> Result<Calibration, DecodeError>
    decreases n,
{
    if n <= 0 {
        Ok(default_calibration())
    } else {
        match scan_cal(lines, n - 1) {
            Err(e) => Err(e),
            Ok(c) => apply_cal_line(c, lines[n - 1]),
        }
    }
}

proof fn lemma_scan_cal_err(lines: Seq<Seq<u8>>, a: int, b: int)
    requires
        0 <= a <= b,
        scan_cal(lines, a) is Err,
    ensures
        scan_cal(lines, b) == scan_cal(lines, a),
    decreases b,
{
    if a < b {
        lemma_scan_cal_err(lines, a, b - 1);
    }
}

/// Fold the calibration header: the first `header_lines` lines of the
/// file (fewer if the file is shorter), applied in order.
pub fn scan_header(lines: &Vec<Vec<u8>>, header_lines: usize) -> (r: Result<
    Calibration,
    DecodeError,
>)
    ensures
        r == scan_cal(
            lines.deep_view(),
            if header_lines <= lines@.len() {
                header_lines as int
            } else {
                lines@.len() as int
            },
        ),
{
    let n: usize = if header_lines <= lines.len() {
        header_lines
    } else {
        lines.len()
    };
    let mut c = Calibration {
        x_gain: 0,
        x_offset: 0,
        y_gain: 0,
        y_offset: 0,
        z_gain: 0,
        z_offset: 0,
        volts: 1,
        lux: 0,
    };
    let mut i: usize = 0;
    while i < n
        invariant
            i <= n,
            n <= lines@.len(),
            n as int == if header_lines <= lines@.len() {
                header_lines as int
            } else {
                lines@.len() as int
            },
            Result::<Calibration, DecodeError>::Ok(c) == scan_cal(lines.deep_view(), i as int),
        decreases n - i,
    {
        let line: &[u8] = lines[i].as_slice();
        proof {
            assert(line@ == lines.deep_view()[i as int]);
        }
        match apply_cal_line_exec(c, line) {
            Ok(c2) => {
                c = c2;
            },
            Err(e) => {
                proof {
                    assert(apply_cal_line(c, lines.deep_view()[i as int]) == Result::<
                        Calibration, DecodeError>::Err(e));
                    assert(scan_cal(lines.deep_view(), i + 1) == apply_cal_line(
                        c, lines.deep_view()[i as int]));
                    lemma_scan_cal_err(lines.deep_view(), i + 1, n as int);
                    assert(scan_cal(lines.deep_view(), n as int) == Result::<
                        Calibration, DecodeError>::Err(e));
                }
                return Err(e);
            },
        }
        i = i + 1;
    }
    Ok(c)
}

/// Apply one header line to the calibration, as `apply_cal_line` says.
fn apply_cal_line_exec(c: Calibration, line: &[u8]) -> (r: Result<Calibration, DecodeError>)
    ensures
        r == apply_cal_line(c, line@),
{
    let pxg: Vec<u8> = vec![0x78u8, 0x20, 0x67, 0x61, 0x69, 0x6E, 0x3A];
    let pxo: Vec<u8> = vec![0x78u8, 0x20, 0x6F, 0x66, 0x66, 0x73, 0x65, 0x74, 0x3A];
    let pyg: Vec<u8> = vec![0x79u8, 0x20, 0x67, 0x61, 0x69, 0x6E, 0x3A];
    let pyo: Vec<u8> = vec![0x79u8, 0x20, 0x6F, 0x66, 0x66, 0x73, 0x65, 0x74, 0x3A];
    let pzg: Vec<u8> = vec![0x7Au8, 0x20, 0x67, 0x61, 0x69, 0x6E, 0x3A];
    let pzo: Vec<u8> = vec![0x7Au8, 0x20, 0x6F, 0x66, 0x66, 0x73, 0x65, 0x74, 0x3A];
    let pv: Vec<u8> = vec![0x56u8, 0x6F, 0x6C, 0x74, 0x73, 0x3A];
    let pl: Vec<u8> = vec![0x4Cu8, 0x75, 0x78, 0x3A];
    proof {
        assert(pxg@ =~= px_gain());
        assert(pxo@ =~= px_offset());
        assert(pyg@ =~= py_gain());
        assert(pyo@ =~= py_offset());
        assert(pzg@ =~= pz_gain());
        assert(pzo@ =~= pz_offset());
        assert(pv@ =~= p_volts());
        assert(pl@ =~= p_lux());
    }
    if starts_with_bytes(line, pxg.as_slice()) {
        let rest = vstd::slice::slice_subrange(line, pxg.len(), line.len());
        match parse_i32(rest) {
            Some(v) => Ok(Calibration { x_gain: v, ..c }),
            None => Err(DecodeError::Framing),
        }
    } else if starts_with_bytes(line, pxo.as_slice()) {
        let rest = vstd::slice::slice_subrange(line, pxo.len(), line.len());
        match parse_i32(rest) {
            Some(v) => Ok(Calibration { x_offset: v, ..c }),
            None => Err(DecodeError::Framing),
        }
    } else if starts_with_bytes(line, pyg.as_slice()) {
        let rest = vstd::slice::slice_subrange(line, pyg.len(), line.len());
        match parse_i32(rest) {
            Some(v) => Ok(Calibration { y_gain: v, ..c }),
            None => Err(DecodeError::Framing),
        }
    } else if starts_with_bytes(line, pyo.as_slice()) {
        let rest = vstd::slice::slice_subrange(line, pyo.len(), line.len());
        match parse_i32(rest) {
            Some(v) => Ok(Calibration { y_offset: v, ..c }),
            None => Err(DecodeError::Framing),
        }
    } else if starts_with_bytes(line, pzg.as_slice()) {
        let rest = vstd::slice::slice_subrange(line, pzg.len(), line.len());
        match parse_i32(rest) {
            Some(v) => Ok(Calibration { z_gain: v, ..c }),
            None => Err(DecodeError::Framing),
        }
    } else if starts_with_bytes(line, pzo.as_slice()) {
        let rest = vstd::slice::slice_subrange(line, pzo.len(), line.len());
        match parse_i32(rest) {
            Some(v) => Ok(Calibration { z_offset: v, ..c }),
            None => Err(DecodeError::Framing),
        }
    } else if starts_with_bytes(line, pv.as_slice()) {
        let rest = vstd::slice::slice_subrange(line, pv.len(), line.len());
        match parse_i32(rest) {
            Some(v) => Ok(Calibration { volts: v, ..c }),
            None => Err(DecodeError::Framing),
        }
    } else if starts_with_bytes(line, pl.as_slice()) {
        let rest = vstd::slice::slice_subrange(line, pl.len(), line.len());
        match parse_i32(rest) {
            Some(v) => Ok(Calibration { lux: v, ..c }),
            None => Err(DecodeError::Framing),
        }
    } else {
        Ok(c)
    }
}

// --- linear calibration, kept exact ---

/// The numerator of the linear axis calibration `(raw - offset) / gain`.
pub open spec fn axis_cal_num(raw: int, offset: int) -> int {
    raw - offset
}

/// The numerator of the light calibration `raw * lux / volts`.
pub open spec fn light_cal_num(raw: int, lux: int) -> int {
    raw * lux
}

/// The exact numerator of the axis calibration; the caller divides by
/// the gain.
pub fn calibrate_axis_num(raw: i16, offset: i32) -> (r: i64)
    ensures
        r == axis_cal_num(raw as int, offset as int),
{
    raw as i64 - offset as i64
}

/// The exact numerator of the light calibration; the caller divides by
/// the volts denominator.
pub fn calibrate_light_num(raw: u16, lux: i32) -> (r: i64)
    ensures
        r == light_cal_num(raw as int, lux as int),
{
    proof {
        assert(-0x8000_0000 * 0x1_0000 <= raw as int * lux as int <= 0x7fff_ffff * 0x1_0000)
            by (nonlinear_arith)
            requires 0 <= raw as int <= 0xffff, -0x8000_0000 <= lux as int <= 0x7fff_ffff,
        ;
    }
    raw as i64 * lux as i64
}

/// A raw axis code calibrates to exactly zero precisely when it equals
/// the stored offset, whatever the gain: the calibrated value is the
/// numerator divided by the gain, and the numerator vanishes exactly at
/// the offset.
pub proof fn lemma_offset_calibrates_to_zero(raw: int, offset: int)
    ensures
        axis_cal_num(raw, offset) == 0 <==> raw == offset,
{
}

// --- the fixed page-time format ---

/// Powers of ten up to 10000.
pub open spec fn pow10(n: int) -> int {
    if n <= 0 {
        1
    } else if n == 1 {
        10
    } else if n == 2 {
        100
    } else if n == 3 {
        1000
    } else {
        10000
    }
}

/// `s` is the fixed 23-byte timestamp `YYYY-MM-DD HH:MM:SS:mmm`.
pub open spec fn page_time_parseable(s: Seq<u8>) -> bool {
    &&& s.len() == 23
    &&& s[4] == 0x2D
    &&& s[7] == 0x2D
    &&& s[10] == 0x20
    &&& s[13] == 0x3A
    &&& s[16] == 0x3A
    &&& s[19] == 0x3A
    &&& forall|i: int|
        0 <= i < 23 && i != 4 && i != 7 && i != 10 && i != 13 && i != 16 && i != 19 ==> is_digit(
            #[trigger] s[i])
}

/// The value of the digit run of `s` at `[start, start + count)`.
pub open spec fn field_digits(s: Seq<u8>, start: int, count: int) -> int {
    digits_value(s.subrange(start, start + count), count)
}

/// Read `count` digit bytes at `start` as a decimal value; `None` when a
/// byte is no digit.
fn read_digits(s: &[u8], start: usize, count: usize) -> (r: Option<u32>)
    requires
        start + count <= s@.len(),
        count <= 4,
    ensures
        (forall|i: int| start <= i < start + count ==> is_digit(#[trigger] s@[i])) ==> (r == Some(
            field_digits(s@, start as int, count as int) as u32) && 0 <= field_digits(
            s@, start as int, count as int) < 10000),
        !(forall|i: int| start <= i < start + count ==> is_digit(#[trigger] s@[i])) ==> r is None,
{
    let slen: usize = s.len();
    proof {
        assert(slen == s@.len());
    }
    let ghost digits = s@.subrange(start as int, start as int + count as int);
    let mut acc: u32 = 0;
    let mut j: usize = 0;
    while j < count
        invariant
            j <= count,
            count <= 4,
            start + count <= s@.len(),
            s@.len() <= usize::MAX,
            digits == s@.subrange(start as int, start as int + count as int),
            acc == digits_value(digits, j as int),
            acc < pow10(j as int),
            forall|i: int| start <= i < start + j ==> is_digit(#[trigger] s@[i]),
        decreases count - j,
    {
        let b: u8 = *vstd::slice::slice_index_get(s, start + j);
        if b < 0x30 || b > 0x39 {
            proof {
                assert(!is_digit(s@[start + j]));
            }
            return None;
        }
        acc = acc * 10 + (b - 0x30) as u32;
        j = j + 1;
        proof {
            assert(digits[j - 1] == s@[start + j - 1]);
            assert(acc == digits_value(digits, j as int));
        }
    }
    Some(acc)
}

/// The parsed civil fields of a page-time text: year, month, day, hour,
/// minute, second, millisecond.
#[derive(Clone, Copy, Debug, PartialEq, Eq, Structural)]
pub struct PageTime {
    pub year: i32,
    pub month: u32,
    pub day: u32,
    pub hour: u32,
    pub minute: u32,
    pub second: u32,
    pub milli: u32,
}

/// The fields the fixed timestamp format carries.
pub open spec fn page_time_fields(s: Seq<u8>) -> PageTime
    recommends
        page_time_parseable(s),
{
    PageTime {
        year: field_digits(s, 0, 4) as i32,
        month: field_digits(s, 5, 2) as u32,
        day: field_digits(s, 8, 2) as u32,
        hour: field_digits(s, 11, 2) as u32,
        minute: field_digits(s, 14, 2) as u32,
        second: field_digits(s, 17, 2) as u32,
        milli: field_digits(s, 20, 3) as u32,
    }
}

/// Parse the fixed `YYYY-MM-DD HH:MM:SS:mmm` timestamp: `Some` exactly on
/// well-formed text.
pub fn parse_page_time(s: &[u8]) -> (r: Option<PageTime>)
    ensures
        page_time_parseable(s@) ==> r == Some(page_time_fields(s@)),
        !page_time_parseable(s@) ==> r is None,
{
    if s.len() != 23 {
        return None;
    }
    if *vstd::slice::slice_index_get(s, 4) != 0x2D || *vstd::slice::slice_index_get(s, 7) != 0x2D
        || *vstd::slice::slice_index_get(s, 10) != 0x20
        || *vstd::slice::slice_index_get(s, 13) != 0x3A
        || *vstd::slice::slice_index_get(s, 16) != 0x3A
        || *vstd::slice::slice_index_get(s, 19) != 0x3A {
        return None;
    }
    let year = match read_digits(s, 0, 4) {
        Some(v) => v,
        None => { return None; },
    };
    let month = match read_digits(s, 5, 2) {
        Some(v) => v,
        None => { return None; },
    };
    let day = match read_digits(s, 8, 2) {
        Some(v) => v,
        None => { return None; },
    };
    let hour = match read_digits(s, 11, 2) {
        Some(v) => v,
        None => { return None; },
    };
    let minute = match read_digits(s, 14, 2) {
        Some(v) => v,
        None => { return None; },
    };
    let second = match read_digits(s, 17, 2) {
        Some(v) => v,
        None => { return None; },
    };
    let milli = match read_digits(s, 20, 3) {
        Some(v) => v,
        None => { return None; },
    };
    Some(
        PageTime {
            year: year as i32,
            month,
            day,
            hour,
            minute,
            second,
            milli,
        },
    )
}

// --- the measurement frequency, in integer milli-hertz ---

/// The first position of byte `x` in `s` at or after `from`, or the
/// length when there is none.
pub open spec fn find_byte(s: Seq<u8>, x: u8, from: int) -> int
    decreases s.len() - from,
{
    if from < 0 || from >= s.len() {
        s.len() as int
    } else if s[from] == x {
        from
    } else {
        find_byte(s, x, from + 1)
    }
}

proof fn lemma_find_byte(s: Seq<u8>, x: u8, from: int)
    requires
        0 <= from <= s.len(),
    ensures
        from <= find_byte(s, x, from) <= s.len(),
        find_byte(s, x, from) < s.len() ==> s[find_byte(s, x, from)] == x,
    decreases s.len() - from,
{
    if from < s.len() && s[from] != x {
        lemma_find_byte(s, x, from + 1);
    }
}

/// The scaled fraction: the first up-to-three fraction digits read as
/// milli-units.
pub open spec fn frac_milli(f: Seq<u8>) -> int {
    if f.len() >= 3 {
        digits_value(f, 3)
    } else if f.len() == 2 {
        digits_value(f, 2) * 10
    } else if f.len() == 1 {
        digits_value(f, 1) * 100
    } else {
        0
    }
}

/// `s` spells a frequency: a digit run with an optional fraction.
pub open spec fn mhz_parseable(s: Seq<u8>) -> bool {
    let d = find_byte(s, 0x2E, 0);
    &&& d >= 1
    &&& all_digits(s.subrange(0, d))
    &&& (d == s.len() || (d + 1 <= s.len() && s.subrange(d + 1, s.len() as int).len() >= 1
        && all_digits(s.subrange(d + 1, s.len() as int))))
    &&& 0 <= mhz_value(s) <= 0xffff_ffff
}

/// The frequency `s` spells, in milli-hertz, the fraction truncated to
/// three digits.
pub open spec fn mhz_value(s: Seq<u8>) -> int {
    let d = find_byte(s, 0x2E, 0);
    if d == s.len() {
        digits_value(s.subrange(0, d), d) * 1000
    } else {
        digits_value(s.subrange(0, d), d) * 1000 + frac_milli(s.subrange(d + 1, s.len() as int))
    }
}

/// Parse a decimal frequency with optional fraction into milli-hertz:
/// `Some` exactly when the text is well-formed and the value fits a
/// `u32`.
pub fn parse_mhz(s: &[u8]) -> (r: Option<u32>)
    ensures
        mhz_parseable(s@) ==> r == Some(mhz_value(s@) as u32),
        !mhz_parseable(s@) ==> r is None,
{
    // find the dot
    let mut d: usize = 0;
    while d < s.len() && *vstd::slice::slice_index_get(s, d) != 0x2E
        invariant
            0 <= d <= s@.len(),
            find_byte(s@, 0x2E, 0) == find_byte(s@, 0x2E, d as int),
            forall|k: int| 0 <= k < d ==> s@[k] != 0x2E,
        decreases s@.len() - d,
    {
        d = d + 1;
    }
    proof {
        assert(find_byte(s@, 0x2E, d as int) == d);
        lemma_find_byte(s@, 0x2E, 0);
    }
    if d == 0 {
        return None;
    }
    let ghost ipart = s@.subrange(0, d as int);
    let mut acc: u64 = 0;
    let mut i: usize = 0;
    while i < d
        invariant
            0 <= i <= d,
            d <= s@.len(),
            s@.len() <= usize::MAX,
            find_byte(s@, 0x2E, 0) == d as int,
            1 <= d,
            ipart == s@.subrange(0, d as int),
            acc == digits_value(ipart, i as int),
            acc <= 0xffff_ffff,
            forall|k: int| 0 <= k < i ==> is_digit(#[trigger] ipart[k]),
        decreases d - i,
    {
        let b: u8 = *vstd::slice::slice_index_get(s, i);
        if b < 0x30 || b > 0x39 {
            proof {
                assert(ipart[i as int] == s@[i as int]);
                assert(!all_digits(ipart));
                assert(!mhz_parseable(s@));
            }
            return None;
        }
        acc = acc * 10 + (b - 0x30) as u64;
        i = i + 1;
        proof {
            assert(ipart[i - 1] == s@[i - 1]);
            assert(acc == digits_value(ipart, i as int));
        }
        if acc > 0xffff_ffff {
            proof {
                if mhz_parseable(s@) {
                    assert(all_digits(ipart));
                    lemma_digits_value_monotone(ipart, i as int, d as int);
                    if d < s@.len() {
                        let fpart = s@.subrange(d + 1, s@.len() as int);
                        lemma_frac_milli_nonneg(fpart);
                    }
                    assert(mhz_value(s@) > 0xffff_ffff) by (nonlinear_arith)
                        requires
                            digits_value(s@.subrange(0, find_byte(s@, 0x2E, 0)), find_byte(
                                s@, 0x2E, 0)) > 0xffff_ffff,
                            mhz_value(s@) >= digits_value(s@.subrange(0, find_byte(s@, 0x2E, 0)),
                                find_byte(s@, 0x2E, 0)) * 1000,
                    ;
                    assert(false);
                }
            }
            return None;
        }
    }
    // fraction
    let mut frac3: u64 = 0;
    if d < s.len() {
        if d + 1 == s.len() {
            // a dot with no fraction digits
            return None;
        }
        let ghost fpart = s@.subrange(d + 1, s@.len() as int);
        let mut facc: u64 = 0;
        let mut cnt: usize = 0;
        let mut k: usize = d + 1;
        while k < s.len()
            invariant
                d + 1 <= k <= s@.len(),
                d < s@.len(),
                s@.len() <= usize::MAX,
                find_byte(s@, 0x2E, 0) == d as int,
                1 <= d,
                cnt == if k - (d + 1) <= 3 { k - (d + 1) } else { 3int },
                fpart == s@.subrange(d + 1, s@.len() as int),
                facc == digits_value(fpart, cnt as int),
                facc < pow10(cnt as int),
                forall|q: int| 0 <= q < k - (d + 1) ==> is_digit(#[trigger] fpart[q]),
            decreases s@.len() - k,
        {
            let b: u8 = *vstd::slice::slice_index_get(s, k);
            if b < 0x30 || b > 0x39 {
                proof {
                    assert(fpart[k - (d + 1)] == s@[k as int]);
                    assert(!all_digits(fpart));
                    assert(!mhz_parseable(s@));
                }
                return None;
            }
            if cnt < 3 {
                facc = facc * 10 + (b - 0x30) as u64;
                cnt = cnt + 1;
                proof {
                    assert(fpart[cnt - 1] == s@[d + cnt]);
                    assert(facc == digits_value(fpart, cnt as int));
                }
            }
            k = k + 1;
        }
        // scale a short fraction up to milli-units
        if cnt == 1 {
            frac3 = facc * 100;
        } else if cnt == 2 {
            frac3 = facc * 10;
        } else {
            frac3 = facc;
        }
        proof {
            assert(frac3 == frac_milli(fpart));
        }
    }
    let total: u64 = acc * 1000 + frac3;
    proof {
        if d < s@.len() {
            lemma_frac_milli_nonneg(s@.subrange(d + 1, s@.len() as int));
        }
    }
    if total > 0xffff_ffff {
        return None;
    }
    Some(total as u32)
}

proof fn lemma_frac_milli_nonneg(f: Seq<u8>)
    requires
        all_digits(f),
    ensures
        0 <= frac_milli(f) <= 999,
{
    if f.len() >= 1 {
        assert(digits_value(f, 0) == 0);
        assert(digits_value(f, 1) == digits_value(f, 0) * 10 + (f[0] - 0x30));
    }
    if f.len() >= 2 {
        assert(digits_value(f, 2) == digits_value(f, 1) * 10 + (f[1] - 0x30));
    }
    if f.len() >= 3 {
        assert(digits_value(f, 3) == digits_value(f, 2) * 10 + (f[2] - 0x30));
    }
}

// --- the packed binary sample block of a page ---

/// How many whole 6-byte samples the block holds.
pub open spec fn page_sample_count(buf: Seq<u8>) -> int {
    buf.len() as int / 6
}

/// The X axis code of sample `i`: the first 12-bit field of its 48 bits.
pub open spec fn page_x(buf: Seq<u8>, i: int) -> i16 {
    crate::bits::signed_value(crate::bits::field_value(buf, 48 * i, 12), 12) as i16
}

/// The Y axis code of sample `i`: the second 12-bit field.
pub open spec fn page_y(buf: Seq<u8>, i: int) -> i16 {
    crate::bits::signed_value(crate::bits::field_value(buf, 48 * i + 12, 12), 12) as i16
}

/// The Z axis code of sample `i`: the third 12-bit field.
pub open spec fn page_z(buf: Seq<u8>, i: int) -> i16 {
    crate::bits::signed_value(crate::bits::field_value(buf, 48 * i + 24, 12), 12) as i16
}

/// The raw light code of sample `i`: the 10-bit field after the axes.
pub open spec fn page_light(buf: Seq<u8>, i: int) -> u16 {
    crate::bits::field_value(buf, 48 * i + 36, 10) as u16
}

/// The button state of sample `i`: the next single bit; the last bit of
/// the sample is padding.
pub open spec fn page_button(buf: Seq<u8>, i: int) -> bool {
    crate::bits::stream_bit(buf, 48 * i + 46) == 1
}

/// The nanosecond period of a rate given in milli-hertz.
pub open spec fn period_ns_of_mhz(mhz: u32) -> int
    recommends
        mhz >= 1,
{
    1_000_000_000_000int / mhz as int
}

/// Every sample time of the page fits an `i64`: the period is
/// nonnegative, so the last sample decides.
pub open spec fn page_times_fit(date_ns: i64, period: int, ns: int) -> bool {
    ns == 0 || date_ns + period * (ns - 1) <= i64::MAX
}

/// The timestamp axis of a page.
pub open spec fn page_time_seq(date_ns: i64, period: int, ns: int) -> Seq<i64> {
    Seq::new(ns as nat, |i: int| (date_ns + period * i) as i64)
}

/// One axis column of a page.
pub open spec fn page_x_seq(buf: Seq<u8>, ns: int) -> Seq<i16> {
    Seq::new(ns as nat, |i: int| page_x(buf, i))
}

pub open spec fn page_y_seq(buf: Seq<u8>, ns: int) -> Seq<i16> {
    Seq::new(ns as nat, |i: int| page_y(buf, i))
}

pub open spec fn page_z_seq(buf: Seq<u8>, ns: int) -> Seq<i16> {
    Seq::new(ns as nat, |i: int| page_z(buf, i))
}

pub open spec fn page_light_seq(buf: Seq<u8>, ns: int) -> Seq<u16> {
    Seq::new(ns as nat, |i: int| page_light(buf, i))
}

pub open spec fn page_button_seq(buf: Seq<u8>, ns: int) -> Seq<bool> {
    Seq::new(ns as nat, |i: int| page_button(buf, i))
}

/// The decoded samples of one page: raw codes and times.
pub struct PageSamples {
    pub time: Vec<i64>,
    pub x_raw: Vec<i16>,
    pub y_raw: Vec<i16>,
    pub z_raw: Vec<i16>,
    pub light_raw: Vec<u16>,
    pub button: Vec<bool>,
}

/// Decode one page sample block: 6 bytes per sample, read as 12-bit X, Y
/// and Z axis codes, a 10-bit light code, one button bit and one padding
/// bit; sample `i` sits at the page base time plus `i` periods. A zero
/// rate, and a page whose last sample time would overflow the nanosecond
/// axis, are rejected.
pub fn decode_page(buf: &[u8], date_ns: i64, mhz: u32) -> (r: Result<PageSamples, DecodeError>)
    requires
        8 * buf@.len() <= usize::MAX,
    ensures
        mhz == 0 ==> r == Result::<PageSamples, DecodeError>::Err(DecodeError::Config),
        mhz >= 1 && !page_times_fit(date_ns, period_ns_of_mhz(mhz), page_sample_count(buf@))
            ==> r == Result::<PageSamples, DecodeError>::Err(DecodeError::Config),
        mhz >= 1 && page_times_fit(date_ns, period_ns_of_mhz(mhz), page_sample_count(buf@)) ==> {
            &&& r matches Ok(s)
            &&& s.time@ == page_time_seq(date_ns, period_ns_of_mhz(mhz), page_sample_count(buf@))
            &&& s.x_raw@ == page_x_seq(buf@, page_sample_count(buf@))
            &&& s.y_raw@ == page_y_seq(buf@, page_sample_count(buf@))
            &&& s.z_raw@ == page_z_seq(buf@, page_sample_count(buf@))
            &&& s.light_raw@ == page_light_seq(buf@, page_sample_count(buf@))
            &&& s.button@ == page_button_seq(buf@, page_sample_count(buf@))
        },
{
    if mhz == 0 {
        return Err(DecodeError::Config);
    }
    let period: i64 = 1_000_000_000_000i64 / mhz as i64;
    let ns: usize = buf.len() / 6;
    proof {
        vstd::arithmetic::div_mod::lemma_fundamental_div_mod(buf@.len() as int, 6);
        assert(48 * ns <= 8 * buf@.len());
        assert(period == period_ns_of_mhz(mhz));
        assert(0 <= period <= 1_000_000_000_000);
    }
    if ns > 0 {
        // the last sample time decides whether the page fits the axis
        proof {
            assert(0 <= period as int * ((ns - 1) as int)
                <= 1_000_000_000_000 * 0xffff_ffff_ffff_ffffint) by (nonlinear_arith)
                requires 0 <= period <= 1_000_000_000_000, 1 <= ns,
                    ns - 1 <= 0xffff_ffff_ffff_ffffint,
            ;
        }
        let last: i128 = date_ns as i128 + (period as i128) * ((ns - 1) as i128);
        if last > i64::MAX as i128 {
            return Err(DecodeError::Config);
        }
    }
    let mut cursor = crate::bits::BitCursor::new(buf);
    let mut time: Vec<i64> = Vec::new();
    let mut x_raw: Vec<i16> = Vec::new();
    let mut y_raw: Vec<i16> = Vec::new();
    let mut z_raw: Vec<i16> = Vec::new();
    let mut light_raw: Vec<u16> = Vec::new();
    let mut button: Vec<bool> = Vec::new();
    let mut i: usize = 0;
    while i < ns
        invariant
            mhz >= 1,
            period == period_ns_of_mhz(mhz),
            0 <= period <= 1_000_000_000_000,
            page_times_fit(date_ns, period as int, ns as int),
            ns == page_sample_count(buf@),
            48 * ns <= 8 * buf@.len(),
            8 * buf@.len() <= usize::MAX,
            cursor.wf(),
            cursor.bytes_spec() == buf@,
            cursor.pos_spec() == 48 * i,
            i <= ns,
            time@.len() == i,
            x_raw@.len() == i,
            y_raw@.len() == i,
            z_raw@.len() == i,
            light_raw@.len() == i,
            button@.len() == i,
            forall|t: int| 0 <= t < i ==> #[trigger] time@[t] == (date_ns + period * t) as i64,
            forall|t: int| 0 <= t < i ==> #[trigger] x_raw@[t] == page_x(buf@, t),
            forall|t: int| 0 <= t < i ==> #[trigger] y_raw@[t] == page_y(buf@, t),
            forall|t: int| 0 <= t < i ==> #[trigger] z_raw@[t] == page_z(buf@, t),
            forall|t: int| 0 <= t < i ==> #[trigger] light_raw@[t] == page_light(buf@, t),
            forall|t: int| 0 <= t < i ==> #[trigger] button@[t] == page_button(buf@, t),
        decreases ns - i,
    {
        let x: i16 = match cursor.read_signed(12) {
            Some(v) => v,
            None => { return Err(DecodeError::Framing); },
        };
        let y: i16 = match cursor.read_signed(12) {
            Some(v) => v,
            None => { return Err(DecodeError::Framing); },
        };
        let z: i16 = match cursor.read_signed(12) {
            Some(v) => v,
            None => { return Err(DecodeError::Framing); },
        };
        let light: u16 = match cursor.read_unsigned(10) {
            Some(v) => v,
            None => { return Err(DecodeError::Framing); },
        };
        let pressed: bool = match cursor.read_bool() {
            Some(v) => v,
            None => { return Err(DecodeError::Framing); },
        };
        match cursor.skip(1) {
            Some(u) => u,
            None => { return Err(DecodeError::Framing); },
        };
        proof {
            assert(0 <= period as int * (i as int) <= period as int * ((ns - 1) as int)
                <= 1_000_000_000_000 * 0xffff_ffff_ffff_ffffint) by (nonlinear_arith)
                requires 0 <= period <= 1_000_000_000_000, 0 <= i <= ns - 1,
                    ns - 1 <= 0xffff_ffff_ffff_ffffint,
            ;
        }
        let t128: i128 = date_ns as i128 + (period as i128) * (i as i128);
        let t: i64 = t128 as i64;
        time.push(t);
        x_raw.push(x);
        y_raw.push(y);
        z_raw.push(z);
        light_raw.push(light);
        button.push(pressed);
        i = i + 1;
    }
    proof {
        assert(time@ =~= page_time_seq(date_ns, period as int, ns as int));
        assert(x_raw@ =~= page_x_seq(buf@, ns as int));
        assert(y_raw@ =~= page_y_seq(buf@, ns as int));
        assert(z_raw@ =~= page_z_seq(buf@, ns as int));
        assert(light_raw@ =~= page_light_seq(buf@, ns as int));
        assert(button@ =~= page_button_seq(buf@, ns as int));
    }
    Ok(PageSamples { time, x_raw, y_raw, z_raw, light_raw, button })
}

// --- splitting the file into lines ---

/// A line with a trailing carriage return loses it.
pub open spec fn strip_cr(line: Seq<u8>) -> Seq<u8> {
    if line.len() > 0 && line[line.len() - 1] == 0x0D {
        line.drop_last()
    } else {
        line
    }
}

/// The lines of `bytes` from `pos` on: split at each newline, the
/// newline consumed and a trailing carriage return stripped, with no
/// empty line after a final newline.
pub open spec fn lines_from(bytes: Seq<u8>, pos: int) -> Seq<Seq<u8>>
    decreases bytes.len() - pos + 1,
        via lines_from_decreases
{
    if pos < 0 || pos >= bytes.len() {
        Seq::empty()
    } else {
        let e = find_byte(bytes, 0x0A, pos);
        seq![strip_cr(bytes.subrange(pos, e))] + lines_from(bytes, e + 1)
    }
}

#[via_fn]
proof fn lines_from_decreases(bytes: Seq<u8>, pos: int) {
    if 0 <= pos && pos < bytes.len() {
        lemma_find_byte(bytes, 0x0A, pos);
    }
}

/// No line is longer than the buffer it was split from.
pub proof fn lemma_lines_from_len(bytes: Seq<u8>, pos: int)
    ensures
        forall|j: int|
            0 <= j < lines_from(bytes, pos).len() ==> #[trigger] lines_from(
                bytes, pos)[j].len() <= bytes.len(),
    decreases bytes.len() - pos + 1,
{
    if 0 <= pos && pos < bytes.len() {
        lemma_find_byte(bytes, 0x0A, pos);
        let e = find_byte(bytes, 0x0A, pos);
        lemma_lines_from_len(bytes, e + 1);
        assert forall|j: int| 0 <= j < lines_from(bytes, pos).len() implies #[trigger] lines_from(
            bytes, pos)[j].len() <= bytes.len() by {
            if j > 0 {
                assert(lines_from(bytes, pos)[j] == lines_from(bytes, e + 1)[j - 1]);
            }
        }
    }
}

/// Split a byte buffer into its lines, as `lines_from` says.
pub fn split_lines(data: &[u8]) -> (r: Vec<Vec<u8>>)
    requires
        data@.len() < usize::MAX,
    ensures
        r.deep_view() == lines_from(data@, 0),
{
    let len: usize = data.len();
    let mut acc: Vec<Vec<u8>> = Vec::new();
    let mut pos: usize = 0;
    while pos < len
        invariant
            len == data@.len(),
            len < usize::MAX,
            pos <= len + 1,
            lines_from(data@, 0) == acc.deep_view() + lines_from(data@, pos as int),
        decreases len + 1 - pos,
    {
        // find the end of the line
        let mut e: usize = pos;
        while e < len && *vstd::slice::slice_index_get(data, e) != 0x0A
            invariant
                pos <= e <= len,
                len == data@.len(),
                find_byte(data@, 0x0A, pos as int) == find_byte(data@, 0x0A, e as int),
            decreases len - e,
        {
            e = e + 1;
        }
        proof {
            assert(find_byte(data@, 0x0A, e as int) == e);
            assert(find_byte(data@, 0x0A, pos as int) == e);
        }
        // copy the line and strip a trailing carriage return
        let mut line: Vec<u8> = Vec::new();
        let mut k: usize = pos;
        while k < e
            invariant
                pos <= k <= e,
                e <= data@.len(),
                line@ == data@.subrange(pos as int, k as int),
            decreases e - k,
        {
            line.push(*vstd::slice::slice_index_get(data, k));
            k = k + 1;
            proof {
                assert(line@ =~= data@.subrange(pos as int, k as int));
            }
        }
        proof {
            assert(line@ == data@.subrange(pos as int, e as int));
        }
        if line.len() > 0 && line[line.len() - 1] == 0x0D {
            line.pop();
        }
        proof {
            assert(line@ == strip_cr(data@.subrange(pos as int, e as int)));
        }
        let ghost acc_before = acc.deep_view();
        let ghost line_view = line@;
        acc.push(line);
        proof {
            assert forall|j: int| 0 <= j < acc.deep_view().len() implies acc.deep_view()[j]
                == acc_before.push(line_view)[j] by {
                if j == acc_before.len() {
                    assert(acc@[j].deep_view() =~= line_view);
                }
            }
            assert(acc.deep_view() =~= acc_before.push(line_view));
            assert(lines_from(data@, pos as int) == seq![line_view] + lines_from(
                data@, e + 1));
            assert((acc_before + (seq![line_view] + lines_from(data@, e + 1))) =~= (
            acc_before.push(line_view) + lines_from(data@, e + 1)));
        }
        pos = e + 1;
    }
    proof {
        assert(lines_from(data@, pos as int) =~= Seq::<Seq<u8>>::empty());
        assert(acc.deep_view() + lines_from(data@, pos as int) =~= acc.deep_view());
    }
    acc
}

// --- the whole paginated stream ---

/// How many lines open the file as its calibration header.
pub const HEADER_LINES: usize = 59;

/// The mathematical image of decoding the sample pages.
pub struct BinModel {
    pub time: Seq<i64>,
    pub x: Seq<i16>,
    pub y: Seq<i16>,
    pub z: Seq<i16>,
    pub light: Seq<u16>,
    pub button: Seq<bool>,
}

/// What decoding the lines from index `idx` onward yields, the page base
/// time being `date_ns` and the declared rate `mhz` milli-hertz when
/// that line is reached. Lines are grouped in tens from the end of the
/// header; the tenth line of each group is the packed sample block, and
/// every other line may redeclare the page time or the measurement
/// frequency for what follows.
pub open spec fn bin_from(lines: Seq<Seq<u8>>, idx: int, date_ns: i64, mhz: u32) -> Result<
    BinModel,
    DecodeError,
>
    decreases lines.len() - idx,
{
    if idx >= lines.len() || idx < HEADER_LINES as int {
        Ok(
            BinModel {
                time: Seq::empty(),
                x: Seq::empty(),
                y: Seq::empty(),
                z: Seq::empty(),
                light: Seq::empty(),
                button: Seq::empty(),
            },
        )
    } else {
        let line = lines[idx];
        let off = (idx - HEADER_LINES as int) % 10;
        if off == 9 {
            if mhz == 0 {
                Err(DecodeError::Config)
            } else {
                let period = period_ns_of_mhz(mhz);
                let ns = page_sample_count(line);
                if !page_times_fit(date_ns, period, ns) {
                    Err(DecodeError::Config)
                } else {
                    match bin_from(lines, idx + 1, date_ns, mhz) {
                        Err(e) => Err(e),
                        Ok(m) => Ok(
                            BinModel {
                                time: page_time_seq(date_ns, period, ns) + m.time,
                                x: page_x_seq(line, ns) + m.x,
                                y: page_y_seq(line, ns) + m.y,
                                z: page_z_seq(line, ns) + m.z,
                                light: page_light_seq(line, ns) + m.light,
                                button: page_button_seq(line, ns) + m.button,
                            },
                        ),
                    }
                }
            }
        } else if starts_with(line, p_page_time()) {
            let rest = line.subrange(p_page_time().len() as int, line.len() as int);
            if !page_time_parseable(rest) {
                Err(DecodeError::Framing)
            } else {
                let f = page_time_fields(rest);
                match crate::datetime::epoch_ns_opt_of(
                    f.year, f.month, f.day, f.hour, f.minute, f.second, f.milli) {
                    None => Err(DecodeError::Framing),
                    Some(t) => bin_from(lines, idx + 1, t, mhz),
                }
            }
        } else if starts_with(line, p_frequency()) {
            let rest = line.subrange(p_frequency().len() as int, line.len() as int);
            if !mhz_parseable(rest) {
                Err(DecodeError::Framing)
            } else {
                bin_from(lines, idx + 1, date_ns, mhz_value(rest) as u32)
            }
        } else {
            bin_from(lines, idx + 1, date_ns, mhz)
        }
    }
}

/// What one whole pass over a paginated file produces: the calibration
/// the header declared and the raw sample columns of every page, in
/// stream order. Raw codes are kept exactly; `calibrate_axis_num` and
/// `calibrate_light_num` give the exact numerators of the linear
/// calibration against this calibration's offsets and scales.
pub struct BinData {
    pub cal: Calibration,
    pub time: Vec<i64>,
    pub x_raw: Vec<i16>,
    pub y_raw: Vec<i16>,
    pub z_raw: Vec<i16>,
    pub light_raw: Vec<u16>,
    pub button: Vec<bool>,
}

/// Decode a whole paginated log: scan the calibration header, then walk
/// the pages in order, starting from the epoch as page base time and no
/// declared rate. The result is exactly what `scan_cal` and `bin_from`
/// say of the file's lines.
#[verifier::rlimit(80)]
pub fn decode_bin(data: &[u8]) -> (r: Result<BinData, DecodeError>)
    requires
        data@.len() < usize::MAX / 8,
    ensures
        ({
            let ls = lines_from(data@, 0);
            let hn = if HEADER_LINES as int <= ls.len() {
                HEADER_LINES as int
            } else {
                ls.len() as int
            };
            &&& (scan_cal(ls, hn) matches Err(e) ==> r == Result::<BinData, DecodeError>::Err(e))
            &&& (scan_cal(ls, hn) matches Ok(c) ==> match bin_from(
                ls, HEADER_LINES as int, 0, 0) {
                Err(e) => r == Result::<BinData, DecodeError>::Err(e),
                Ok(m) => {
                    &&& r matches Ok(d)
                    &&& d.cal == c
                    &&& d.time@ == m.time
                    &&& d.x_raw@ == m.x
                    &&& d.y_raw@ == m.y
                    &&& d.z_raw@ == m.z
                    &&& d.light_raw@ == m.light
                    &&& d.button@ == m.button
                },
            })
        }),
{
    let lines: Vec<Vec<u8>> = split_lines(data);
    let ghost ls = lines_from(data@, 0);
    let ghost full = bin_from(ls, HEADER_LINES as int, 0, 0);
    let cal = match scan_header(&lines, HEADER_LINES) {
        Ok(c) => c,
        Err(e) => {
            return Err(e);
        },
    };
    let mut time: Vec<i64> = Vec::new();
    let mut x_raw: Vec<i16> = Vec::new();
    let mut y_raw: Vec<i16> = Vec::new();
    let mut z_raw: Vec<i16> = Vec::new();
    let mut light_raw: Vec<u16> = Vec::new();
    let mut button: Vec<bool> = Vec::new();
    let mut date_ns: i64 = 0;
    let mut mhz: u32 = 0;
    proof {
        lemma_lines_from_len(data@, 0);
    }
    let mut idx: usize = HEADER_LINES;
    if lines.len() < HEADER_LINES {
        return Ok(
            BinData { cal, time, x_raw, y_raw, z_raw, light_raw, button },
        );
    }
    while idx < lines.len()
        invariant
            lines.deep_view() == ls,
            full == bin_from(ls, HEADER_LINES as int, 0, 0),
            HEADER_LINES <= idx <= ls.len(),
            data@.len() < usize::MAX / 8,
            forall|j: int| 0 <= j < ls.len() ==> #[trigger] ls[j].len() <= data@.len(),
            ls == lines_from(data@, 0),
            Result::<Calibration, DecodeError>::Ok(cal) == scan_cal(
                ls,
                if HEADER_LINES as int <= ls.len() {
                    HEADER_LINES as int
                } else {
                    ls.len() as int
                },
            ),
            bin_from(ls, idx as int, date_ns, mhz) matches Ok(m) ==> (full matches Ok(f)
                && f.time == time@ + m.time && f.x == x_raw@ + m.x && f.y == y_raw@ + m.y
                && f.z == z_raw@ + m.z && f.light == light_raw@ + m.light
                && f.button == button@ + m.button),
            bin_from(ls, idx as int, date_ns, mhz) matches Err(e) ==> full == Result::<
                BinModel,
                DecodeError,
            >::Err(e),
        decreases ls.len() - idx,
    {
        let ghost idx0 = idx as int;
        let ghost date0 = date_ns;
        let ghost mhz0 = mhz;
        let line: &[u8] = lines[idx].as_slice();
        proof {
            assert(line@ == ls[idx0]);
        }
        let off: usize = (idx - HEADER_LINES) % 10;
        if off == 9 {
            match decode_page(line, date_ns, mhz) {
                Err(e) => {
                    proof {
                        assert(bin_from(ls, idx0, date0, mhz0) == Result::<
                            BinModel, DecodeError>::Err(e));
                    }
                    return Err(e);
                },
                Ok(samples) => {
                    let ghost ct = samples.time@;
                    let ghost cx = samples.x_raw@;
                    let ghost cy = samples.y_raw@;
                    let ghost cz = samples.z_raw@;
                    let ghost cl = samples.light_raw@;
                    let ghost cb = samples.button@;
                    let ghost time_old = time@;
                    let ghost x_old = x_raw@;
                    let ghost y_old = y_raw@;
                    let ghost z_old = z_raw@;
                    let ghost l_old = light_raw@;
                    let ghost b_old = button@;
                    let PageSamples {
                        time: mut st,
                        x_raw: mut sx,
                        y_raw: mut sy,
                        z_raw: mut sz,
                        light_raw: mut sl,
                        button: mut sb,
                    } = samples;
                    time.append(&mut st);
                    x_raw.append(&mut sx);
                    y_raw.append(&mut sy);
                    z_raw.append(&mut sz);
                    light_raw.append(&mut sl);
                    button.append(&mut sb);
                    proof {
                        let rest = bin_from(ls, idx0 + 1, date0, mhz0);
                        if rest is Ok {
                            let m = rest->Ok_0;
                            let f = full->Ok_0;
                            assert((time_old + (ct + m.time)) =~= (time_old + ct) + m.time);
                            assert(f.time == time@ + m.time);
                            assert((x_old + (cx + m.x)) =~= (x_old + cx) + m.x);
                            assert(f.x == x_raw@ + m.x);
                            assert((y_old + (cy + m.y)) =~= (y_old + cy) + m.y);
                            assert(f.y == y_raw@ + m.y);
                            assert((z_old + (cz + m.z)) =~= (z_old + cz) + m.z);
                            assert(f.z == z_raw@ + m.z);
                            assert((l_old + (cl + m.light)) =~= (l_old + cl) + m.light);
                            assert(f.light == light_raw@ + m.light);
                            assert((b_old + (cb + m.button)) =~= (b_old + cb) + m.button);
                            assert(f.button == button@ + m.button);
                        }
                    }
                },
            }
        } else {
            let ptp: Vec<u8> = vec![0x50u8, 0x61, 0x67, 0x65, 0x20, 0x54, 0x69, 0x6D, 0x65, 0x3A];
            let pfp: Vec<u8> = vec![
                0x4Du8, 0x65, 0x61, 0x73, 0x75, 0x72, 0x65, 0x6D, 0x65, 0x6E, 0x74, 0x20, 0x46,
                0x72, 0x65, 0x71, 0x75, 0x65, 0x6E, 0x63, 0x79, 0x3A,
            ];
            proof {
                assert(ptp@ =~= p_page_time());
                assert(pfp@ =~= p_frequency());
            }
            if starts_with_bytes(line, ptp.as_slice()) {
                let rest = vstd::slice::slice_subrange(line, ptp.len(), line.len());
                proof {
                    assert(rest@ == ls[idx0].subrange(
                        p_page_time().len() as int, ls[idx0].len() as int));
                }
                match parse_page_time(rest) {
                    None => {
                        proof {
                            assert(bin_from(ls, idx0, date0, mhz0) == Result::<
                                BinModel, DecodeError>::Err(DecodeError::Framing));
                        }
                        return Err(DecodeError::Framing);
                    },
                    Some(f) => {
                        match crate::datetime::civil_to_epoch_ns(
                            f.year, f.month, f.day, f.hour, f.minute, f.second, f.milli) {
                            None => {
                                proof {
                                    assert(bin_from(ls, idx0, date0, mhz0) == Result::<
                                        BinModel, DecodeError>::Err(DecodeError::Framing));
                                }
                                return Err(DecodeError::Framing);
                            },
                            Some(t) => {
                                date_ns = t;
                            },
                        }
                    },
                }
            } else if starts_with_bytes(line, pfp.as_slice()) {
                let rest = vstd::slice::slice_subrange(line, pfp.len(), line.len());
                proof {
                    assert(rest@ == ls[idx0].subrange(
                        p_frequency().len() as int, ls[idx0].len() as int));
                }
                match parse_mhz(rest) {
                    None => {
                        proof {
                            assert(bin_from(ls, idx0, date0, mhz0) == Result::<
                                BinModel, DecodeError>::Err(DecodeError::Framing));
                        }
                        return Err(DecodeError::Framing);
                    },
                    Some(v) => {
                        mhz = v;
                    },
                }
            }
        }
        idx = idx + 1;
    }
    proof {
        let m = bin_from(ls, idx as int, date_ns, mhz)->Ok_0;
        let f = full->Ok_0;
        assert(f.time =~= time@ + m.time && time@ + m.time =~= time@);
        assert(f.x =~= x_raw@ + m.x && x_raw@ + m.x =~= x_raw@);
        assert(f.y =~= y_raw@ + m.y && y_raw@ + m.y =~= y_raw@);
        assert(f.z =~= z_raw@ + m.z && z_raw@ + m.z =~= z_raw@);
        assert(f.light =~= light_raw@ + m.light && light_raw@ + m.light =~= light_raw@);
        assert(f.button =~= button@ + m.button && button@ + m.button =~= button@);
    }
    Ok(BinData { cal, time, x_raw, y_raw, z_raw, light_raw, button })
}

} // verus!
