//! Two-Line Element (TLE) decoding and validation.
//!
//! A TLE is a pair of 69-character lines in a fixed-column format.  The
//! parser checks both lines' lengths, leading characters, modulo-10
//! checksums, and the agreement of the two catalog numbers, then decodes the
//! numeric fields exactly into scaled integers: angles in degrees times
//! `10^8`, mean motion in revolutions per day times `10^8`, eccentricity
//! times `10^7`, and the two power-of-ten fields (second derivative of mean
//! motion, BSTAR) as a scaled mantissa and a decimal exponent.  Decoding is
//! exact — no precision is lost to rounding — and the whole accept/reject
//! behaviour is pinned by `tle_valid` and `spec_elements`.

use vstd::prelude::*;
use vstd::string::StringSliceAdditionalSpecFns;
use crate::error::PropagationError;

verus! {

/// ASCII byte values used by the fixed-column TLE format.
pub const ASCII_ZERO: u8 = 48;

pub const ASCII_NINE: u8 = 57;

pub const ASCII_PLUS: u8 = 43;

pub const ASCII_MINUS: u8 = 45;

pub const ASCII_DOT: u8 = 46;

pub const ASCII_SPACE: u8 = 32;

pub const ASCII_ONE: u8 = 49;

pub const ASCII_TWO: u8 = 50;

pub const ASCII_UPPER_A: u8 = 65;

pub const ASCII_UPPER_H: u8 = 72;

pub const ASCII_UPPER_J: u8 = 74;

pub const ASCII_UPPER_N: u8 = 78;

pub const ASCII_UPPER_P: u8 = 80;

pub const ASCII_UPPER_Z: u8 = 90;

/// Degree scale used for decimal fields: values are degrees (or revolutions
/// per day) times `10^8`.
pub const DECIMAL_SCALE: i64 = 100_000_000;

/// `10^n` for small non-negative `n`.
pub open spec fn pow10(n: int) -> int
    decreases n,
{
    if n <= 0 {
        1
    } else {
        10 * pow10(n - 1)
    }
}

/// ASCII decimal digit.
pub open spec fn is_digit(c: u8) -> bool {
    ASCII_ZERO <= c && c <= ASCII_NINE
}

/// Numeric value of an ASCII digit.
pub open spec fn digit_val(c: u8) -> int {
    c - ASCII_ZERO
}

/// Every byte of `s` is an ASCII digit.
pub open spec fn all_digits(s: Seq<u8>) -> bool {
    forall|i: int| 0 <= i < s.len() ==> is_digit(#[trigger] s[i])
}

/// The number written by a run of digits, most significant first.
pub open spec fn digits_val(s: Seq<u8>) -> int
    decreases s.len(),
{
    if s.len() == 0 {
        0
    } else {
        digits_val(s.drop_last()) * 10 + digit_val(s.last())
    }
}

/// What a byte adds to a TLE line checksum: digits count their value,
/// a minus sign counts one, everything else counts nothing.
pub open spec fn checksum_contribution(c: u8) -> int {
    if is_digit(c) {
        digit_val(c)
    } else if c == ASCII_MINUS {
        1
    } else {
        0
    }
}

/// Sum of the checksum contributions of every byte of `s`.
pub open spec fn checksum_sum(s: Seq<u8>) -> int
    decreases s.len(),
{
    if s.len() == 0 {
        0
    } else {
        checksum_sum(s.drop_last()) + checksum_contribution(s.last())
    }
}

/// A 69-byte line ends with the modulo-10 checksum of its first 68 bytes.
pub open spec fn line_checksum_ok(line: Seq<u8>) -> bool {
    &&& is_digit(line[68])
    &&& checksum_sum(line.take(68)) % 10 == digit_val(line[68])
}

/// `s` with its leading ASCII spaces removed.
pub open spec fn trimmed(s: Seq<u8>) -> Seq<u8>
    decreases s.len(),
{
    if s.len() > 0 && s[0] == ASCII_SPACE {
        trimmed(s.drop_first())
    } else {
        s
    }
}

/// Index of the first `.` in `s`, or `s.len()` if there is none.
pub open spec fn dot_index(s: Seq<u8>) -> int
    decreases s.len(),
{
    if s.len() == 0 {
        0
    } else if s[0] == ASCII_DOT {
        0
    } else {
        1 + dot_index(s.drop_first())
    }
}

/// An unsigned decimal number with at most one point, at most ten integer
/// digits, at most eight fractional digits, and at least one digit.
pub open spec fn body_ok(s: Seq<u8>) -> bool {
    let d = dot_index(s);
    if d >= s.len() {
        1 <= s.len() <= 10 && all_digits(s)
    } else {
        &&& all_digits(s.take(d))
        &&& all_digits(s.skip(d + 1))
        &&& s.len() - d - 1 <= 8
        &&& d <= 10
        &&& s.len() >= 2
    }
}

/// Value of a `body_ok` number, scaled by `10^8`.
pub open spec fn body_val_e8(s: Seq<u8>) -> int {
    let d = dot_index(s);
    if d >= s.len() {
        digits_val(s) * 100_000_000
    } else {
        digits_val(s.take(d)) * 100_000_000 + digits_val(s.skip(d + 1)) * pow10(
            8 - (s.len() - d - 1),
        )
    }
}

/// A decimal field: leading spaces, an optional sign, then a `body_ok`
/// number.
pub open spec fn dec_field_ok(s: Seq<u8>) -> bool {
    let t = trimmed(s);
    if t.len() > 0 && (t[0] == ASCII_MINUS || t[0] == ASCII_PLUS) {
        body_ok(t.drop_first())
    } else {
        body_ok(t)
    }
}

/// Signed value of a decimal field, scaled by `10^8`.
pub open spec fn dec_field_val_e8(s: Seq<u8>) -> int {
    let t = trimmed(s);
    if t.len() > 0 && t[0] == ASCII_MINUS {
        -body_val_e8(t.drop_first())
    } else if t.len() > 0 && t[0] == ASCII_PLUS {
        body_val_e8(t.drop_first())
    } else {
        body_val_e8(t)
    }
}

/// A field with an assumed leading decimal point: leading spaces, an
/// optional sign, then one to `width` digits `d…` read as `0.d…`.
pub open spec fn assumed_field_ok(s: Seq<u8>, width: int) -> bool {
    let t = trimmed(s);
    let b = if t.len() > 0 && (t[0] == ASCII_MINUS || t[0] == ASCII_PLUS) {
        t.drop_first()
    } else {
        t
    };
    1 <= b.len() <= width && all_digits(b)
}

/// Signed value of an assumed-point field, scaled by `10^width`.
pub open spec fn assumed_field_val(s: Seq<u8>, width: int) -> int {
    let t = trimmed(s);
    if t.len() > 0 && t[0] == ASCII_MINUS {
        -(digits_val(t.drop_first()) * pow10(width - t.drop_first().len()))
    } else if t.len() > 0 && t[0] == ASCII_PLUS {
        digits_val(t.drop_first()) * pow10(width - t.drop_first().len())
    } else {
        digits_val(t) * pow10(width - t.len())
    }
}

/// A two-byte decimal exponent: a sign and a digit, or two digits.
pub open spec fn exp_field_ok(s: Seq<u8>) -> bool {
    s.len() == 2 && ((s[0] == ASCII_MINUS || s[0] == ASCII_PLUS) && is_digit(s[1]) || (is_digit(s[0])
        && is_digit(s[1])))
}

/// Value of a two-byte exponent field.
pub open spec fn exp_field_val(s: Seq<u8>) -> int {
    if s[0] == ASCII_MINUS {
        -digit_val(s[1])
    } else if s[0] == ASCII_PLUS {
        digit_val(s[1])
    } else {
        10 * digit_val(s[0]) + digit_val(s[1])
    }
}

/// Value of the first byte of a catalog number in letter-extended form:
/// digits stand for themselves and `A`–`Z` (skipping `I` and `O`) stand for
/// 10 through 33.  Negative for any other byte.
pub open spec fn catalog_initial(c: u8) -> int {
    if is_digit(c) {
        digit_val(c)
    } else if ASCII_UPPER_A <= c && c <= ASCII_UPPER_H {
        10 + c - ASCII_UPPER_A
    } else if ASCII_UPPER_J <= c && c <= ASCII_UPPER_N {
        18 + c - ASCII_UPPER_J
    } else if ASCII_UPPER_P <= c && c <= ASCII_UPPER_Z {
        23 + c - ASCII_UPPER_P
    } else {
        -1
    }
}

/// A five-column catalog-number field: after trimming, either five
/// characters led by a digit or letter, or one to four digits.
pub open spec fn catalog_ok(s: Seq<u8>) -> bool {
    let t = trimmed(s);
    if t.len() == 5 {
        catalog_initial(t[0]) >= 0 && all_digits(t.skip(1))
    } else {
        1 <= t.len() && all_digits(t)
    }
}

/// Value of a catalog-number field.
pub open spec fn catalog_val(s: Seq<u8>) -> int {
    let t = trimmed(s);
    if t.len() == 5 {
        catalog_initial(t[0]) * 10000 + digits_val(t.skip(1))
    } else {
        digits_val(t)
    }
}

/// Mean orbital elements decoded exactly from a TLE.
///
/// Angles are in degrees times `10^8`, mean motion in revolutions per day
/// times `10^8`, eccentricity times `10^7`; the epoch is a calendar year, a
/// day of year, and a fractional day in units of `10^-8` day.  The second
/// derivative of mean motion and the BSTAR drag term are a mantissa times
/// `10^6` (of a value below one) together with a decimal exponent.
#[derive(Debug, Clone, Copy, PartialEq, Eq, Structural)]
pub struct MeanElements {
    /// NORAD catalog number, identical on both lines.
    pub norad_id: u64,
    /// Full calendar year of the epoch (1957 through 2056).
    pub epoch_year: u32,
    /// Integer day of year of the epoch, starting at 1.
    pub epoch_day: u32,
    /// Fractional day of the epoch in units of `10^-8` day.
    pub epoch_day_frac_e8: u32,
    /// First derivative of mean motion, in revolutions per day squared
    /// (halved, as written in the TLE) times `10^8`.
    pub mean_motion_dot_e8: i64,
    /// Second derivative mantissa times `10^6` (value below one in
    /// magnitude).
    pub mean_motion_ddot_e6: i64,
    /// Decimal exponent of the second derivative.
    pub mean_motion_ddot_exp: i32,
    /// BSTAR drag mantissa times `10^6` (value below one in magnitude).
    pub bstar_e6: i64,
    /// Decimal exponent of BSTAR.
    pub bstar_exp: i32,
    /// Inclination in degrees times `10^8`; between 0 and 180 degrees.
    pub inclination_e8: i64,
    /// Right ascension of the ascending node in degrees times `10^8`.
    pub right_ascension_e8: i64,
    /// Eccentricity times `10^7`; below one by construction.
    pub eccentricity_e7: u32,
    /// Argument of perigee in degrees times `10^8`.
    pub argument_of_perigee_e8: i64,
    /// Mean anomaly in degrees times `10^8`.
    pub mean_anomaly_e8: i64,
    /// Mean motion in revolutions per day times `10^8`; positive.
    pub mean_motion_e8: i64,
}

impl MeanElements {
    /// Well-formedness: the ranges every decoded element set satisfies.
    pub open spec fn wf(self) -> bool {
        &&& 1957 <= self.epoch_year <= 2056
        &&& 1 <= self.epoch_day <= 366
        &&& self.epoch_day_frac_e8 < 100_000_000
        &&& self.eccentricity_e7 < 10_000_000
        &&& 0 <= self.inclination_e8 <= 180 * 100_000_000
        &&& 0 < self.mean_motion_e8
    }
}

/// The two-digit epoch year mapped to a full calendar year: values below 57
/// belong to the 2000s, the rest to the 1900s.
pub open spec fn full_year(two_digit: int) -> int {
    if two_digit < 57 {
        2000 + two_digit
    } else {
        1900 + two_digit
    }
}

/// Everything `parse_tle` checks before it accepts a TLE: line lengths and
/// leading characters, both checksums, catalog-number agreement, every
/// numeric field's grammar, and the documented ranges of the epoch day of
/// year, eccentricity, inclination and mean motion.
pub open spec fn tle_valid(l1: Seq<u8>, l2: Seq<u8>) -> bool {
    &&& l1.len() == 69
    &&& l2.len() == 69
    &&& l1[0] == ASCII_ONE && l1[1] == ASCII_SPACE
    &&& l2[0] == ASCII_TWO && l2[1] == ASCII_SPACE
    &&& line_checksum_ok(l1)
    &&& line_checksum_ok(l2)
    &&& catalog_ok(l1.subrange(2, 7))
    &&& catalog_ok(l2.subrange(2, 7))
    &&& catalog_val(l1.subrange(2, 7)) == catalog_val(l2.subrange(2, 7))
    &&& is_digit(l1[18]) && is_digit(l1[19])
    &&& dec_field_ok(l1.subrange(20, 32))
    &&& 100_000_000 <= dec_field_val_e8(l1.subrange(20, 32)) < 367 * 100_000_000
    &&& dec_field_ok(l1.subrange(33, 43))
    &&& assumed_field_ok(l1.subrange(44, 50), 6)
    &&& exp_field_ok(l1.subrange(50, 52))
    &&& assumed_field_ok(l1.subrange(53, 59), 6)
    &&& exp_field_ok(l1.subrange(59, 61))
    &&& dec_field_ok(l2.subrange(8, 16))
    &&& 0 <= dec_field_val_e8(l2.subrange(8, 16)) <= 180 * 100_000_000
    &&& assumed_field_ok(l2.subrange(26, 33), 7)
    &&& assumed_field_val(l2.subrange(26, 33), 7) >= 0
    &&& dec_field_ok(l2.subrange(17, 25))
    &&& dec_field_ok(l2.subrange(34, 42))
    &&& dec_field_ok(l2.subrange(43, 51))
    &&& dec_field_ok(l2.subrange(52, 63))
    &&& 0 < dec_field_val_e8(l2.subrange(52, 63))
}

/// The element set decoded from a valid TLE.
pub open spec fn spec_elements(l1: Seq<u8>, l2: Seq<u8>) -> MeanElements {
    let day_e8 = dec_field_val_e8(l1.subrange(20, 32));
    MeanElements {
        norad_id: catalog_val(l1.subrange(2, 7)) as u64,
        epoch_year: full_year(10 * digit_val(l1[18]) + digit_val(l1[19])) as u32,
        epoch_day: (day_e8 / 100_000_000) as u32,
        epoch_day_frac_e8: (day_e8 % 100_000_000) as u32,
        mean_motion_dot_e8: dec_field_val_e8(l1.subrange(33, 43)) as i64,
        mean_motion_ddot_e6: assumed_field_val(l1.subrange(44, 50), 6) as i64,
        mean_motion_ddot_exp: exp_field_val(l1.subrange(50, 52)) as i32,
        bstar_e6: assumed_field_val(l1.subrange(53, 59), 6) as i64,
        bstar_exp: exp_field_val(l1.subrange(59, 61)) as i32,
        inclination_e8: dec_field_val_e8(l2.subrange(8, 16)) as i64,
        right_ascension_e8: dec_field_val_e8(l2.subrange(17, 25)) as i64,
        eccentricity_e7: assumed_field_val(l2.subrange(26, 33), 7) as u32,
        argument_of_perigee_e8: dec_field_val_e8(l2.subrange(34, 42)) as i64,
        mean_anomaly_e8: dec_field_val_e8(l2.subrange(43, 51)) as i64,
        mean_motion_e8: dec_field_val_e8(l2.subrange(52, 63)) as i64,
    }
}

// ---------------------------------------------------------------------------
// Lemmas
// ---------------------------------------------------------------------------

/// A digit run is non-negative and below `10^len`.
proof fn lemma_digits_val_bound(s: Seq<u8>)
    requires
        all_digits(s),
    ensures
        0 <= digits_val(s) < pow10(s.len() as int),
    decreases s.len(),
{
    if s.len() > 0 {
        assert(all_digits(s.drop_last()));
        lemma_digits_val_bound(s.drop_last());
    }
}

/// Appending a digit multiplies the run's value by ten and adds the digit.
proof fn lemma_digits_val_push(s: Seq<u8>, c: u8)
    ensures
        digits_val(s.push(c)) == digits_val(s) * 10 + digit_val(c),
{
    assert(s.push(c).drop_last() =~= s);
    assert(s.push(c).last() == c);
}

/// `pow10` is positive.
proof fn lemma_pow10_pos(n: int)
    ensures
        pow10(n) >= 1,
    decreases n,
{
    if n > 0 {
        lemma_pow10_pos(n - 1);
    }
}

/// `pow10` grows with its argument.
proof fn lemma_pow10_le(m: int, n: int)
    requires
        m <= n,
    ensures
        pow10(m) <= pow10(n),
    decreases n - m,
{
    if m < n {
        lemma_pow10_le(m, n - 1);
        lemma_pow10_pos(n - 1);
    }
}

/// If everything before `k` is not a dot and `k` is a dot or the end, then
/// `k` is the first dot index.
proof fn lemma_dot_index_at(s: Seq<u8>, k: int)
    requires
        0 <= k <= s.len(),
        forall|i: int| 0 <= i < k ==> #[trigger] s[i] != ASCII_DOT,
        k == s.len() || s[k] == ASCII_DOT,
    ensures
        dot_index(s) == k,
    decreases k,
{
    if k == 0 {
    } else {
        assert(s[0] != ASCII_DOT);
        lemma_dot_index_at(s.drop_first(), k - 1);
    }
}

/// The first dot index is within bounds, points at a dot when it is not the
/// end, and nothing before it is a dot.
proof fn lemma_dot_index_props(s: Seq<u8>)
    ensures
        0 <= dot_index(s) <= s.len(),
        dot_index(s) < s.len() ==> s[dot_index(s)] == ASCII_DOT,
        forall|i: int| 0 <= i < dot_index(s) ==> #[trigger] s[i] != ASCII_DOT,
    decreases s.len(),
{
    if s.len() > 0 && s[0] != ASCII_DOT {
        lemma_dot_index_props(s.drop_first());
        assert forall|i: int| 0 <= i < dot_index(s) implies #[trigger] s[i] != ASCII_DOT by {
            if 1 <= i {
                assert(s.drop_first()[i - 1] != ASCII_DOT);
            }
        }
    }
}

// ---------------------------------------------------------------------------
// Executable field parsers
// ---------------------------------------------------------------------------

/// `10^n` as a `u64`, for `n` up to 8.
fn pow10_u64(n: usize) -> (r: u64)
    requires
        n <= 8,
    ensures
        r == pow10(n as int),
{
    let mut r: u64 = 1;
    let mut i: usize = 0;
    while i < n
        invariant
            i <= n <= 8,
            r == pow10(i as int),
        decreases n - i,
    {
        proof {
            lemma_pow10_le(i as int, 8);
            assert(pow10(8) == 100_000_000) by { reveal_with_fuel(pow10, 9); }
        }
        r = r * 10;
        i = i + 1;
    }
    r
}

/// Skips leading spaces in `s[lo..hi]`, returning the index of the first
/// non-space byte (or `hi`).
fn skip_spaces(s: &[u8], lo: usize, hi: usize) -> (r: usize)
    requires
        lo <= hi <= s@.len(),
    ensures
        lo <= r <= hi,
        trimmed(s@.subrange(lo as int, hi as int)) == s@.subrange(r as int, hi as int),
        r < hi ==> s@[r as int] != ASCII_SPACE,
{
    let ghost whole = s@.subrange(lo as int, hi as int);
    let mut i: usize = lo;
    while i < hi && s[i] == ASCII_SPACE
        invariant
            lo <= i <= hi <= s@.len(),
            trimmed(whole) == trimmed(s@.subrange(i as int, hi as int)),
        decreases hi - i,
    {
        proof {
            let cur = s@.subrange(i as int, hi as int);
            assert(cur[0] == ASCII_SPACE);
            assert(cur.drop_first() =~= s@.subrange(i as int + 1, hi as int));
        }
        i = i + 1;
    }
    proof {
        let fin = s@.subrange(i as int, hi as int);
        if i < hi {
            assert(fin[0] == s@[i as int]);
        }
        assert(trimmed(fin) == fin);
    }
    i
}

/// Parses `s[lo..hi]` as a fixed run of decimal digits.
fn scan_digit_run(s: &[u8], lo: usize, hi: usize) -> (r: Option<u64>)
    requires
        lo <= hi <= s@.len(),
        hi - lo <= 10,
    ensures
        ({
            let f = s@.subrange(lo as int, hi as int);
            match r {
                Some(v) => all_digits(f) && f.len() >= 1 && v == digits_val(f),
                None => !(all_digits(f) && f.len() >= 1),
            }
        }),
{
    let ghost f = s@.subrange(lo as int, hi as int);
    if lo == hi {
        return None;
    }
    let mut acc: u64 = 0;
    let mut i: usize = lo;
    while i < hi
        invariant
            lo <= i <= hi <= s@.len(),
            hi - lo <= 10,
            f == s@.subrange(lo as int, hi as int),
            all_digits(f.take(i - lo)),
            acc == digits_val(f.take(i - lo)),
            acc < pow10(i - lo),
        decreases hi - i,
    {
        let c = s[i];
        if c < ASCII_ZERO || c > ASCII_NINE {
            proof {
                assert(f[i - lo] == c);
                assert(!is_digit(f[i - lo]));
            }
            return None;
        }
        proof {
            lemma_digits_val_push(f.take(i - lo), c);
            assert(f.take(i - lo).push(c) =~= f.take(i - lo + 1));
            lemma_pow10_le(i - lo + 1, 10);
            assert(pow10(10) == 10_000_000_000) by { reveal_with_fuel(pow10, 11); }
        }
        acc = acc * 10 + (c - ASCII_ZERO) as u64;
        i = i + 1;
    }
    proof {
        assert(f.take(hi - lo) =~= f);
    }
    Some(acc)
}

/// Parses `s[lo..hi]` as a decimal field (spaces, optional sign, digits with
/// at most one point and at most eight fractional digits), returning its
/// value scaled by `10^8`.
#[verifier::rlimit(60)]
fn parse_dec_e8(s: &[u8], lo: usize, hi: usize) -> (r: Option<i64>)
    requires
        lo <= hi <= s@.len(),
        hi - lo <= 13,
    ensures
        ({
            let f = s@.subrange(lo as int, hi as int);
            match r {
                Some(v) => dec_field_ok(f) && v == dec_field_val_e8(f),
                None => !dec_field_ok(f),
            }
        }),
{
    let ghost f = s@.subrange(lo as int, hi as int);
    let start = skip_spaces(s, lo, hi);
    let ghost t = s@.subrange(start as int, hi as int);
    proof {
        assert(trimmed(f) == t);
    }
    let mut neg: bool = false;
    let mut ib: usize = start;
    if start < hi && (s[start] == ASCII_MINUS || s[start] == ASCII_PLUS) {
        neg = s[start] == ASCII_MINUS;
        ib = start + 1;
    }
    let ghost b = s@.subrange(ib as int, hi as int);
    proof {
        if start < hi && (s@[start as int] == ASCII_MINUS || s@[start as int] == ASCII_PLUS) {
            assert(t[0] == s@[start as int]);
            assert(t.drop_first() =~= b);
        } else {
            assert(t =~= b);
            if t.len() > 0 {
                assert(t[0] == s@[start as int]);
            }
        }
    }
    // Integer digits.
    let mut acc_int: u64 = 0;
    let mut j: usize = ib;
    while j < hi && j - ib < 11 && s[j] >= ASCII_ZERO && s[j] <= ASCII_NINE
        invariant
            ib <= j <= hi <= s@.len(),
            hi - lo <= 13,
            lo <= ib,
            b == s@.subrange(ib as int, hi as int),
            all_digits(b.take(j - ib)),
            acc_int == digits_val(b.take(j - ib)),
            acc_int < pow10(j - ib),
            j - ib <= 11,
        decreases hi - j,
    {
        let c = s[j];
        proof {
            assert(b[j - ib] == c);
            lemma_digits_val_push(b.take(j - ib), c);
            assert(b.take(j - ib).push(c) =~= b.take(j - ib + 1));
            lemma_pow10_le((j - ib + 1) as int, 11);
            assert(pow10(11) == 100_000_000_000) by { reveal_with_fuel(pow10, 12); }
        }
        acc_int = acc_int * 10 + (c - ASCII_ZERO) as u64;
        j = j + 1;
    }
    let int_len = j - ib;
    if int_len > 10 {
        proof {
            // an eleventh integer digit was scanned: however the body is
            // shaped, it cannot satisfy body_ok
            if body_ok(b) {
                let d = dot_index(b);
                lemma_dot_index_props(b);
                if d >= b.len() {
                    assert(b.len() >= 11);
                } else {
                    assert(d <= 10);
                    assert(b[d] == ASCII_DOT);
                    assert(is_digit(b.take(int_len as int)[d]));
                    assert(false);
                }
                assert(false);
            }
        }
        return None;
    }
    if j == hi {
        // no fractional part
        if int_len == 0 {
            proof {
                if body_ok(b) {
                    assert(b.len() == 0);
                    assert(!body_ok(b));
                }
            }
            return None;
        }
        proof {
            assert(b.take(j - ib) =~= b);
            lemma_dot_index_at(b, b.len() as int);
            assert(body_ok(b));
            lemma_digits_val_bound(b);
            lemma_pow10_le(b.len() as int, 10);
            assert(pow10(10) == 10_000_000_000) by { reveal_with_fuel(pow10, 11); }
        }
        let v = acc_int as i64 * DECIMAL_SCALE;
        return Some(if neg { -v } else { v });
    }
    if s[j] != ASCII_DOT {
        proof {
            // the scan stopped on a byte that is neither a digit nor a dot
            assert(b[j - ib] == s@[j as int]);
            assert(!is_digit(b[j - ib]));
            if body_ok(b) {
                let d = dot_index(b);
                lemma_dot_index_props(b);
                if d >= b.len() {
                    assert(is_digit(b[j - ib]));
                    assert(false);
                } else if d < j - ib {
                    assert(b[d] == ASCII_DOT);
                    assert(is_digit(b.take(j - ib)[d]));
                    assert(false);
                } else if d == j - ib {
                    assert(b[d] == ASCII_DOT);
                    assert(false);
                } else {
                    assert(is_digit(b.take(d)[j - ib]));
                    assert(false);
                }
            }
        }
        return None;
    }
    // Fractional digits after the point.
    let ghost dpos = (j - ib) as int;
    let fs = j + 1;
    let mut acc_frac: u64 = 0;
    let mut k: usize = fs;
    while k < hi && s[k] >= ASCII_ZERO && s[k] <= ASCII_NINE
        invariant
            fs <= k <= hi <= s@.len(),
            ib < fs <= hi,
            hi - lo <= 13,
            lo <= ib,
            b == s@.subrange(ib as int, hi as int),
            fs - 1 - ib == dpos,
            all_digits(b.subrange(fs - ib, k - ib)),
            acc_frac == digits_val(b.subrange(fs - ib, k - ib)),
            acc_frac < pow10(k - fs),
            k - fs <= 12,
        decreases hi - k,
    {
        let c = s[k];
        proof {
            assert(b[k - ib] == c);
            lemma_digits_val_push(b.subrange(fs - ib, k - ib), c);
            assert(b.subrange(fs - ib, k - ib).push(c) =~= b.subrange(fs - ib, k - ib + 1));
            lemma_pow10_le((k - fs + 1) as int, 12);
            assert(pow10(12) == 1_000_000_000_000) by { reveal_with_fuel(pow10, 13); }
        }
        acc_frac = acc_frac * 10 + (c - ASCII_ZERO) as u64;
        k = k + 1;
    }
    proof {
        assert(b[dpos] == ASCII_DOT);
        assert forall|i: int| 0 <= i < dpos implies b[i] != ASCII_DOT by {
            assert(is_digit(b.take(dpos)[i]));
        }
        lemma_dot_index_at(b, dpos);
    }
    if k != hi {
        proof {
            assert(b[k - ib] == s@[k as int]);
            assert(!is_digit(b[k - ib]));
            if body_ok(b) {
                assert(b.skip(dpos + 1)[k - ib - dpos - 1] == b[k - ib]);
                assert(is_digit(b.skip(dpos + 1)[k - ib - dpos - 1]));
                assert(false);
            }
        }
        return None;
    }
    let frac_len = k - fs;
    if frac_len > 8 {
        proof {
            if dec_field_ok(f) {
                assert(body_ok(b));
                assert(b.len() - dpos - 1 <= 8);
                assert(false);
            }
        }
        return None;
    }
    if int_len == 0 && frac_len == 0 {
        proof {
            if dec_field_ok(f) {
                assert(body_ok(b));
                assert(b.len() >= 2);
                assert(false);
            }
        }
        return None;
    }
    proof {
        assert(b.take(dpos) =~= b.take(j - ib));
        assert(b.skip(dpos + 1) =~= b.subrange(fs - ib, k - ib));
        assert(body_ok(b));
        lemma_digits_val_bound(b.take(dpos));
        lemma_digits_val_bound(b.skip(dpos + 1));
        lemma_pow10_le(dpos, 10);
        lemma_pow10_le((b.len() - dpos - 1) as int, 8);
        lemma_pow10_le((8 - (b.len() - dpos - 1)) as int, 8);
        lemma_pow10_pos((8 - (b.len() - dpos - 1)) as int);
        lemma_pow10_pos((b.len() - dpos - 1) as int);
        assert(pow10(10) == 10_000_000_000) by { reveal_with_fuel(pow10, 11); }
        assert(pow10(8) == 100_000_000) by { reveal_with_fuel(pow10, 9); }
    }
    let scale = pow10_u64(8 - frac_len);
    proof {
        let fracv = digits_val(b.skip(dpos + 1));
        let flen = (b.len() - dpos - 1) as int;
        assert(acc_frac == fracv);
        assert(fracv < pow10(flen));
        lemma_pow10_mul(flen, 8 - flen);
        assert(fracv * pow10(8 - flen) < pow10(flen) * pow10(8 - flen)) by (nonlinear_arith)
            requires
                0 <= fracv < pow10(flen),
                pow10(8 - flen) >= 1,
        ;
        assert(fracv * pow10(8 - flen) >= 0) by (nonlinear_arith)
            requires
                fracv >= 0,
                pow10(8 - flen) >= 1,
        ;
    }
    let frac_part = acc_frac * scale;
    let v = acc_int as i64 * DECIMAL_SCALE + frac_part as i64;
    return Some(if neg { -v } else { v });
}

/// `pow10(a) * pow10(b) == pow10(a + b)` for non-negative arguments.
proof fn lemma_pow10_mul(a: int, b: int)
    requires
        a >= 0,
        b >= 0,
    ensures
        pow10(a) * pow10(b) == pow10(a + b),
    decreases a,
{
    if a == 0 {
    } else {
        lemma_pow10_mul(a - 1, b);
        assert(pow10(a) * pow10(b) == 10 * (pow10(a - 1) * pow10(b))) by (nonlinear_arith)
            requires
                pow10(a) == 10 * pow10(a - 1),
        ;
    }
}

/// Parses `s[lo..hi]` as an assumed-point field of the given width,
/// returning the mantissa scaled by `10^width`.
fn parse_assumed(s: &[u8], lo: usize, hi: usize, width: usize) -> (r: Option<i64>)
    requires
        lo <= hi <= s@.len(),
        hi - lo <= width,
        width <= 8,
    ensures
        ({
            let f = s@.subrange(lo as int, hi as int);
            match r {
                Some(v) => assumed_field_ok(f, width as int) && v == assumed_field_val(
                    f,
                    width as int,
                ),
                None => !assumed_field_ok(f, width as int),
            }
        }),
{
    let ghost f = s@.subrange(lo as int, hi as int);
    let start = skip_spaces(s, lo, hi);
    let ghost t = s@.subrange(start as int, hi as int);
    proof {
        assert(trimmed(f) == t);
    }
    let mut neg: bool = false;
    let mut ib: usize = start;
    if start < hi && (s[start] == ASCII_MINUS || s[start] == ASCII_PLUS) {
        neg = s[start] == ASCII_MINUS;
        ib = start + 1;
    }
    let ghost b = s@.subrange(ib as int, hi as int);
    proof {
        if start < hi && (s@[start as int] == ASCII_MINUS || s@[start as int] == ASCII_PLUS) {
            assert(t[0] == s@[start as int]);
            assert(t.drop_first() =~= b);
        } else {
            assert(t =~= b);
            if t.len() > 0 {
                assert(t[0] == s@[start as int]);
            }
        }
    }
    match scan_digit_run(s, ib, hi) {
        Some(d) => {
            proof {
                lemma_digits_val_bound(b);
                lemma_pow10_le(b.len() as int, 8);
                lemma_pow10_le((width - b.len()) as int, 8);
                lemma_pow10_pos((width - b.len()) as int);
                assert(pow10(8) == 100_000_000) by { reveal_with_fuel(pow10, 9); }
                let blen = b.len() as int;
                assert(digits_val(b) * pow10(width - blen) < pow10(blen) * pow10(width - blen))
                    by (nonlinear_arith)
                    requires
                        0 <= digits_val(b) < pow10(blen),
                        pow10(width - blen) >= 1,
                ;
                lemma_pow10_mul(blen, width - blen);
                lemma_pow10_le(width as int, 8);
            }
            let scale = pow10_u64(width - (hi - ib));
            let v = d * scale;
            Some(if neg { -(v as i64) } else { v as i64 })
        },
        None => {
            proof {
                if assumed_field_ok(f, width as int) {
                    assert(all_digits(b) && b.len() >= 1);
                }
            }
            None
        },
    }
}

/// Parses the two-byte exponent field `s[lo..lo+2)`.
fn parse_exp(s: &[u8], lo: usize) -> (r: Option<i32>)
    requires
        lo + 2 <= s@.len(),
    ensures
        ({
            let f = s@.subrange(lo as int, lo as int + 2);
            match r {
                Some(v) => exp_field_ok(f) && v == exp_field_val(f),
                None => !exp_field_ok(f),
            }
        }),
{
    let ghost f = s@.subrange(lo as int, lo as int + 2);
    let n = s.len();
    let c0 = s[lo];
    let c1 = s[lo + 1];
    proof {
        assert(f[0] == c0);
        assert(f[1] == c1);
        assert(f.len() == 2);
    }
    if c1 < ASCII_ZERO || c1 > ASCII_NINE {
        return None;
    }
    let d1 = (c1 - ASCII_ZERO) as i32;
    if c0 == ASCII_MINUS {
        Some(-d1)
    } else if c0 == ASCII_PLUS {
        Some(d1)
    } else if c0 >= ASCII_ZERO && c0 <= ASCII_NINE {
        Some(10 * (c0 - ASCII_ZERO) as i32 + d1)
    } else {
        None
    }
}

/// Parses the five-column catalog-number field `s[lo..lo+5)`.
fn parse_catalog(s: &[u8], lo: usize) -> (r: Option<u64>)
    requires
        lo + 5 <= s@.len(),
    ensures
        ({
            let f = s@.subrange(lo as int, lo as int + 5);
            match r {
                Some(v) => catalog_ok(f) && v == catalog_val(f),
                None => !catalog_ok(f),
            }
        }),
{
    let ghost f = s@.subrange(lo as int, lo as int + 5);
    let n = s.len();
    let hi = lo + 5;
    let start = skip_spaces(s, lo, hi);
    let ghost t = s@.subrange(start as int, hi as int);
    proof {
        assert(trimmed(f) == t);
    }
    if start == lo {
        // five characters: letter-extended form
        let c0 = s[lo];
        proof {
            assert(t =~= f);
            assert(f[0] == c0);
        }
        let initial: u64 = if c0 >= ASCII_ZERO && c0 <= ASCII_NINE {
            (c0 - ASCII_ZERO) as u64
        } else if c0 >= ASCII_UPPER_A && c0 <= ASCII_UPPER_H {
            10 + (c0 - ASCII_UPPER_A) as u64
        } else if c0 >= ASCII_UPPER_J && c0 <= ASCII_UPPER_N {
            18 + (c0 - ASCII_UPPER_J) as u64
        } else if c0 >= ASCII_UPPER_P && c0 <= ASCII_UPPER_Z {
            23 + (c0 - ASCII_UPPER_P) as u64
        } else {
            return None;
        };
        match scan_digit_run(s, lo + 1, hi) {
            Some(d) => {
                proof {
                    assert(s@.subrange(lo as int + 1, hi as int) =~= t.skip(1));
                    lemma_digits_val_bound(t.skip(1));
                    assert(pow10(4) == 10_000) by { reveal_with_fuel(pow10, 5); }
                }
                Some(initial * 10000 + d)
            },
            None => {
                proof {
                    assert(s@.subrange(lo as int + 1, hi as int) =~= t.skip(1));
                }
                None
            },
        }
    } else {
        match scan_digit_run(s, start, hi) {
            Some(d) => Some(d),
            None => None,
        }
    }
}

/// Computes the modulo-10 checksum of the first 68 bytes of a line and
/// compares it with the final byte.
fn checksum_matches(line: &[u8]) -> (r: bool)
    requires
        line@.len() == 69,
    ensures
        r == line_checksum_ok(line@),
{
    let mut acc: u64 = 0;
    let mut i: usize = 0;
    while i < 68
        invariant
            i <= 68,
            line@.len() == 69,
            acc == checksum_sum(line@.take(i as int)),
            acc <= 9 * i,
        decreases 68 - i,
    {
        let c = line[i];
        proof {
            assert(line@.take(i as int + 1).drop_last() =~= line@.take(i as int));
            assert(line@.take(i as int + 1).last() == c);
        }
        if c >= ASCII_ZERO && c <= ASCII_NINE {
            acc = acc + (c - ASCII_ZERO) as u64;
        } else if c == ASCII_MINUS {
            acc = acc + 1;
        }
        i = i + 1;
    }
    let last = line[68];
    if last < ASCII_ZERO || last > ASCII_NINE {
        return false;
    }
    proof {
        assert(acc as int % 10 == checksum_sum(line@.take(68)) % 10);
    }
    acc % 10 == (last - ASCII_ZERO) as u64
}

/// Builds the `TleParseError` variant around a fixed message.
fn tle_error(msg: &str) -> (r: PropagationError)
    ensures
        r is TleParseError,
{
    PropagationError::TleParseError(msg.to_owned())
}

/// Parses and validates a TLE given as two raw lines.
///
/// Returns the exactly decoded `MeanElements` when both lines pass every
/// check recorded in `tle_valid`, and a `TleParseError` otherwise: the
/// result is `Ok` if and only if the input is a valid TLE.
pub fn parse_tle_lines(line1: &[u8], line2: &[u8]) -> (r: Result<MeanElements, PropagationError>)
    ensures
        match r {
            Ok(me) => tle_valid(line1@, line2@) && me == spec_elements(line1@, line2@) && me.wf(),
            Err(e) => !tle_valid(line1@, line2@) && e is TleParseError,
        },
{
    if line1.len() != 69 {
        return Err(tle_error("TLE line 1 must be 69 characters"));
    }
    if line2.len() != 69 {
        return Err(tle_error("TLE line 2 must be 69 characters"));
    }
    if line1[0] != ASCII_ONE || line1[1] != ASCII_SPACE {
        return Err(tle_error("TLE line 1 must start with '1 '"));
    }
    if line2[0] != ASCII_TWO || line2[1] != ASCII_SPACE {
        return Err(tle_error("TLE line 2 must start with '2 '"));
    }
    if !checksum_matches(line1) {
        return Err(tle_error("TLE line 1 checksum mismatch"));
    }
    if !checksum_matches(line2) {
        return Err(tle_error("TLE line 2 checksum mismatch"));
    }
    let norad1 = match parse_catalog(line1, 2) {
        Some(v) => v,
        None => {
            return Err(tle_error("TLE line 1 has an invalid catalog number"));
        },
    };
    let norad2 = match parse_catalog(line2, 2) {
        Some(v) => v,
        None => {
            return Err(tle_error("TLE line 2 has an invalid catalog number"));
        },
    };
    if norad1 != norad2 {
        return Err(tle_error("TLE lines carry different catalog numbers"));
    }
    let y0 = line1[18];
    let y1 = line1[19];
    if y0 < ASCII_ZERO || y0 > ASCII_NINE || y1 < ASCII_ZERO || y1 > ASCII_NINE {
        return Err(tle_error("TLE epoch year must be two digits"));
    }
    let two_digit_year = 10 * (y0 - ASCII_ZERO) as u32 + (y1 - ASCII_ZERO) as u32;
    let year: u32 = if two_digit_year < 57 {
        2000 + two_digit_year
    } else {
        1900 + two_digit_year
    };
    let day_e8 = match parse_dec_e8(line1, 20, 32) {
        Some(v) => v,
        None => {
            return Err(tle_error("TLE epoch day of year is not a number"));
        },
    };
    if day_e8 < DECIMAL_SCALE || day_e8 >= 367 * DECIMAL_SCALE {
        return Err(tle_error("TLE epoch day of year is out of range"));
    }
    let ndot_e8 = match parse_dec_e8(line1, 33, 43) {
        Some(v) => v,
        None => {
            return Err(tle_error("TLE mean motion derivative is not a number"));
        },
    };
    let nddot_e6 = match parse_assumed(line1, 44, 50, 6) {
        Some(v) => v,
        None => {
            return Err(tle_error("TLE second derivative mantissa is not a number"));
        },
    };
    let nddot_exp = match parse_exp(line1, 50) {
        Some(v) => v,
        None => {
            return Err(tle_error("TLE second derivative exponent is not a number"));
        },
    };
    let bstar_e6 = match parse_assumed(line1, 53, 59, 6) {
        Some(v) => v,
        None => {
            return Err(tle_error("TLE BSTAR mantissa is not a number"));
        },
    };
    let bstar_exp = match parse_exp(line1, 59) {
        Some(v) => v,
        None => {
            return Err(tle_error("TLE BSTAR exponent is not a number"));
        },
    };
    let incl_e8 = match parse_dec_e8(line2, 8, 16) {
        Some(v) => v,
        None => {
            return Err(tle_error("TLE inclination is not a number"));
        },
    };
    if incl_e8 < 0 || incl_e8 > 180 * DECIMAL_SCALE {
        return Err(tle_error("TLE inclination is outside 0 to 180 degrees"));
    }
    let ecc_e7 = match parse_assumed(line2, 26, 33, 7) {
        Some(v) => v,
        None => {
            return Err(tle_error("TLE eccentricity is not a number"));
        },
    };
    if ecc_e7 < 0 {
        return Err(tle_error("TLE eccentricity must not be negative"));
    }
    let raan_e8 = match parse_dec_e8(line2, 17, 25) {
        Some(v) => v,
        None => {
            return Err(tle_error("TLE right ascension is not a number"));
        },
    };
    let argp_e8 = match parse_dec_e8(line2, 34, 42) {
        Some(v) => v,
        None => {
            return Err(tle_error("TLE argument of perigee is not a number"));
        },
    };
    let ma_e8 = match parse_dec_e8(line2, 43, 51) {
        Some(v) => v,
        None => {
            return Err(tle_error("TLE mean anomaly is not a number"));
        },
    };
    let mm_e8 = match parse_dec_e8(line2, 52, 63) {
        Some(v) => v,
        None => {
            return Err(tle_error("TLE mean motion is not a number"));
        },
    };
    if mm_e8 <= 0 {
        return Err(tle_error("TLE mean motion must be positive"));
    }
    proof {
        assert(assumed_field_ok(line2@.subrange(26, 33), 7));
        lemma_assumed_val_bound(line2@.subrange(26, 33), 7);
        assert(pow10(7) == 10_000_000) by { reveal_with_fuel(pow10, 8); }
    }
    Ok(
        MeanElements {
            norad_id: norad1,
            epoch_year: year,
            epoch_day: (day_e8 / DECIMAL_SCALE) as u32,
            epoch_day_frac_e8: (day_e8 % DECIMAL_SCALE) as u32,
            mean_motion_dot_e8: ndot_e8,
            mean_motion_ddot_e6: nddot_e6,
            mean_motion_ddot_exp: nddot_exp,
            bstar_e6: bstar_e6,
            bstar_exp: bstar_exp,
            inclination_e8: incl_e8,
            right_ascension_e8: raan_e8,
            eccentricity_e7: ecc_e7 as u32,
            argument_of_perigee_e8: argp_e8,
            mean_anomaly_e8: ma_e8,
            mean_motion_e8: mm_e8,
        },
    )
}

/// An assumed-point field's magnitude stays below its scale.
proof fn lemma_assumed_val_bound(s: Seq<u8>, width: int)
    requires
        assumed_field_ok(s, width),
        0 <= width <= 8,
    ensures
        -pow10(width) < assumed_field_val(s, width) < pow10(width),
{
    let t = trimmed(s);
    let b = if t.len() > 0 && (t[0] == ASCII_MINUS || t[0] == ASCII_PLUS) {
        t.drop_first()
    } else {
        t
    };
    lemma_digits_val_bound(b);
    let blen = b.len() as int;
    lemma_pow10_pos(width - blen);
    assert(digits_val(b) * pow10(width - blen) < pow10(blen) * pow10(width - blen))
        by (nonlinear_arith)
        requires
            0 <= digits_val(b) < pow10(blen),
            pow10(width - blen) >= 1,
    ;
    assert(digits_val(b) * pow10(width - blen) >= 0) by (nonlinear_arith)
        requires
            digits_val(b) >= 0,
            pow10(width - blen) >= 1,
    ;
    lemma_pow10_mul(blen, width - blen);
}

/// Parses and validates a TLE given as two text lines.
pub fn parse_tle(line1: &str, line2: &str) -> (r: Result<MeanElements, PropagationError>)
    ensures
        match r {
            Ok(me) => tle_valid(line1.spec_bytes(), line2.spec_bytes()) && me == spec_elements(
                line1.spec_bytes(),
                line2.spec_bytes(),
            ) && me.wf(),
            Err(e) => !tle_valid(line1.spec_bytes(), line2.spec_bytes()) && e is TleParseError,
        },
{
    parse_tle_lines(line1.as_bytes(), line2.as_bytes())
}

} // verus!
