use vstd::prelude::*;

use crate::region::{
    digit_value, digits_value, field, find_char, first_index, is_digit, rest, split_first,
};

verus! {

/// A threshold in `[0, 0.5]`, held as `num / den`.
#[derive(Clone, Copy, Debug, PartialEq, Eq, Structural)]
pub struct Fraction {
    pub num: u32,
    pub den: u32,
}

impl Fraction {
    pub open spec fn wf(self) -> bool {
        self.den > 0 && 2 * self.num <= self.den
    }
}

/// The per-run thresholds of the quality gate and the ambiguity filter.
#[derive(Clone, Copy, Debug, PartialEq, Eq, Structural)]
pub struct FilterConfig {
    /// A column is reported when its minor proportions add up to strictly more than this.
    pub ambiguity_threshold: Fraction,
    /// A minor category's forward fraction must lie within `[t, 1 - t]`.
    pub strand_bias_threshold: Fraction,
    /// Least base quality of an admitted read base.
    pub base_quality_floor: u8,
    /// Least mapping quality of a read with a base at the column.
    pub map_quality_floor: u8,
    /// Least raw depth of a column whose reads are counted at all.
    pub depth_floor: u32,
    /// Least number of reads outside the major variant.
    pub minor_depth_floor: u32,
    /// Whether deletions and insertions are counted.
    pub include_indels: bool,
}

impl FilterConfig {
    pub open spec fn wf(self) -> bool {
        self.ambiguity_threshold.wf() && self.strand_bias_threshold.wf()
    }
}

/// Why a threshold token was refused.
#[derive(Clone, Copy, Debug, PartialEq, Eq, Structural)]
pub enum ThresholdError {
    /// Not a decimal number.
    NotANumber,
    /// A number outside `[0, 0.5]`.
    OutOfRange,
}

/// Thresholds are stored rounded to nine decimals: `num / 1_000_000_000`.
pub const THRESHOLD_SCALE: u32 = 1_000_000_000;

/// Exponents are tracked exactly up to this magnitude; any larger one puts the decimal
/// point so far from the digits of a token that only its sign matters.
pub const EXP_CAP: i128 = 1_180_591_620_717_411_303_424;

pub open spec fn pow10(k: nat) -> nat
    decreases k,
{
    if k == 0 {
        1
    } else {
        10 * pow10((k - 1) as nat)
    }
}

pub open spec fn all_digits(s: Seq<char>) -> bool {
    forall|i: int| 0 <= i < s.len() ==> is_digit(#[trigger] s[i])
}

pub open spec fn sign_len(s: Seq<char>) -> int {
    if s.len() > 0 && (s[0] == '+' || s[0] == '-') {
        1
    } else {
        0
    }
}

pub open spec fn is_negative(s: Seq<char>) -> bool {
    s.len() > 0 && s[0] == '-'
}

/// A token without its sign.
pub open spec fn unsigned_part(s: Seq<char>) -> Seq<char> {
    s.skip(sign_len(s))
}

/// Index of the first `e` or `E`, or `-1`.
pub open spec fn exp_index(b: Seq<char>) -> int {
    let i = first_index(b, 'e');
    let k = first_index(b, 'E');
    if i < 0 {
        k
    } else if k < 0 || i < k {
        i
    } else {
        k
    }
}

pub open spec fn has_exponent(s: Seq<char>) -> bool {
    exp_index(unsigned_part(s)) >= 0
}

/// The digits and point of a token, before any exponent.
pub open spec fn mantissa(s: Seq<char>) -> Seq<char> {
    let b = unsigned_part(s);
    if exp_index(b) < 0 {
        b
    } else {
        b.take(exp_index(b))
    }
}

/// The text after the exponent marker.
pub open spec fn exponent_text(s: Seq<char>) -> Seq<char> {
    let b = unsigned_part(s);
    if exp_index(b) < 0 {
        Seq::empty()
    } else {
        b.skip(exp_index(b) + 1)
    }
}

pub open spec fn whole_part(s: Seq<char>) -> Seq<char> {
    field(mantissa(s), '.')
}

pub open spec fn fraction_part(s: Seq<char>) -> Seq<char> {
    rest(mantissa(s), '.')
}

/// All digits of the mantissa, the point left out.
pub open spec fn mantissa_digits(s: Seq<char>) -> Seq<char> {
    whole_part(s) + fraction_part(s)
}

pub open spec fn exponent_digits(t: Seq<char>) -> Seq<char> {
    t.skip(sign_len(t))
}

/// An exponent: an optional sign, then one or more digits.
pub open spec fn is_exponent_text(t: Seq<char>) -> bool {
    exponent_digits(t).len() > 0 && all_digits(exponent_digits(t))
}

pub open spec fn signed_value(t: Seq<char>) -> int {
    if is_negative(t) {
        -(digits_value(exponent_digits(t)) as int)
    } else {
        digits_value(exponent_digits(t)) as int
    }
}

pub open spec fn exponent_value(s: Seq<char>) -> int {
    if has_exponent(s) {
        signed_value(exponent_text(s))
    } else {
        0
    }
}

/// A decimal number: an optional sign, digits with an optional point (at least one
/// digit), and an optional exponent `e` or `E` with an optional sign and digits.
pub open spec fn is_number_text(s: Seq<char>) -> bool {
    &&& all_digits(whole_part(s))
    &&& all_digits(fraction_part(s))
    &&& whole_part(s).len() + fraction_part(s).len() > 0
    &&& has_exponent(s) ==> is_exponent_text(exponent_text(s))
}

/// Where the decimal point falls among the mantissa digits once the exponent is applied:
/// the value is `0.d[p] d[p+1] ...` shifted so that `d[p]` is the first decimal.
pub open spec fn point(s: Seq<char>) -> int {
    whole_part(s).len() + exponent_value(s)
}

/// The values of the mantissa digits.
pub open spec fn digit_values(s: Seq<char>) -> Seq<nat> {
    mantissa_digits(s).map_values(|c: char| digit_value(c))
}

/// The digit at index `j`, zero outside the digits.
pub open spec fn at(v: Seq<nat>, j: int) -> nat {
    if 0 <= j < v.len() {
        v[j]
    } else {
        0
    }
}

pub open spec fn all_zero(v: Seq<nat>) -> bool {
    forall|j: int| #[trigger] at(v, j) == 0
}

/// With the point before index `p`, the value is at most one half.
pub open spec fn at_most_half_at(v: Seq<nat>, p: int) -> bool {
    &&& forall|j: int| j < p ==> #[trigger] at(v, j) == 0
    &&& at(v, p) < 5 || (at(v, p) == 5 && forall|j: int| j > p ==> #[trigger] at(v, j) == 0)
}

/// The number lies in `[0, 0.5]` (a negative zero included).
pub open spec fn threshold_in_range(s: Seq<char>) -> bool {
    all_zero(digit_values(s)) || (!is_negative(s) && at_most_half_at(digit_values(s), point(s)))
}

/// The first `n` decimals after the point before index `p`, as an integer.
pub open spec fn scaled_at(v: Seq<nat>, p: int, n: nat) -> nat
    decreases n,
{
    if n == 0 {
        0
    } else {
        scaled_at(v, p, (n - 1) as nat) * 10 + at(v, p + n - 1)
    }
}

pub open spec fn billionths_at(v: Seq<nat>, p: int) -> nat {
    scaled_at(v, p, 9) + if at(v, p + 9) >= 5 {
        1nat
    } else {
        0nat
    }
}

/// The fractional value of the number rounded half up to nine decimals, in billionths.
pub open spec fn billionths(s: Seq<char>) -> nat {
    billionths_at(digit_values(s), point(s))
}

pub open spec fn clamp_exponent(v: int) -> int {
    if v > EXP_CAP {
        EXP_CAP + 1
    } else if v < -EXP_CAP {
        -EXP_CAP - 1
    } else {
        v
    }
}

pub open spec fn is_digit_seq(v: Seq<nat>) -> bool {
    forall|k: int| 0 <= k < v.len() ==> #[trigger] v[k] <= 9
}

pub open spec fn nat_digits(ds: Seq<u8>) -> Seq<nat> {
    ds.map_values(|x: u8| x as nat)
}

proof fn lemma_scaled_nine(v: Seq<nat>, p: int)
    ensures
        scaled_at(v, p, 9) == at(v, p) * 100_000_000 + at(v, p + 1) * 10_000_000 + at(v, p + 2)
            * 1_000_000 + at(v, p + 3) * 100_000 + at(v, p + 4) * 10_000 + at(v, p + 5) * 1_000
            + at(v, p + 6) * 100 + at(v, p + 7) * 10 + at(v, p + 8),
{
    reveal_with_fuel(scaled_at, 10);
}

/// Every digit is below ten, so nine decimals stay below a billion.
proof fn lemma_billionths_bound(v: Seq<nat>, p: int)
    requires
        is_digit_seq(v),
    ensures
        scaled_at(v, p, 9) < 1_000_000_000,
        at_most_half_at(v, p) ==> billionths_at(v, p) <= 500_000_000,
        all_zero(v) ==> billionths_at(v, p) == 0,
{
    lemma_scaled_nine(v, p);
    let ghost q = seq![p, p + 1, p + 2, p + 3, p + 4, p + 5, p + 6, p + 7, p + 8, p + 9];
    assert forall|i: int| 0 <= i < 10 implies #[trigger] at(v, q[i]) <= 9 by {
        if 0 <= q[i] < v.len() {
        }
    }
    assert(at(v, q[0]) <= 9 && at(v, q[1]) <= 9 && at(v, q[2]) <= 9 && at(v, q[3]) <= 9);
    assert(at(v, q[4]) <= 9 && at(v, q[5]) <= 9 && at(v, q[6]) <= 9 && at(v, q[7]) <= 9);
    assert(at(v, q[8]) <= 9);
    if at_most_half_at(v, p) && at(v, p) == 5 {
        assert(at(v, p + 1) == 0 && at(v, p + 2) == 0 && at(v, p + 3) == 0);
        assert(at(v, p + 4) == 0 && at(v, p + 5) == 0 && at(v, p + 6) == 0);
        assert(at(v, p + 7) == 0 && at(v, p + 8) == 0 && at(v, p + 9) == 0);
    }
    if all_zero(v) {
        assert(at(v, p) == 0 && at(v, p + 1) == 0 && at(v, p + 2) == 0);
        assert(at(v, p + 3) == 0 && at(v, p + 4) == 0 && at(v, p + 5) == 0);
        assert(at(v, p + 6) == 0 && at(v, p + 7) == 0 && at(v, p + 8) == 0);
        assert(at(v, p + 9) == 0);
    }
}

/// Two points that both lie at least ten places past the digits, or both at least
/// ten places before them, give the same range test and the same stored value.
proof fn lemma_far_points(v: Seq<nat>, p: int, q: int)
    requires
        (p >= v.len() + 10 && q >= v.len() + 10) || (p <= -11 && q <= -11),
    ensures
        at_most_half_at(v, p) == at_most_half_at(v, q),
        billionths_at(v, p) == billionths_at(v, q),
{
    lemma_scaled_nine(v, p);
    lemma_scaled_nine(v, q);
    lemma_far_point(v, p);
    lemma_far_point(v, q);
}

proof fn lemma_far_point(v: Seq<nat>, p: int)
    requires
        p >= v.len() + 10 || p <= -11,
    ensures
        p >= v.len() + 10 ==> at_most_half_at(v, p) == all_zero(v),
        p <= -11 ==> at_most_half_at(v, p),
        at(v, p) == 0 && at(v, p + 1) == 0 && at(v, p + 2) == 0 && at(v, p + 3) == 0,
        at(v, p + 4) == 0 && at(v, p + 5) == 0 && at(v, p + 6) == 0 && at(v, p + 7) == 0,
        at(v, p + 8) == 0 && at(v, p + 9) == 0,
{
    if p >= v.len() + 10 && !all_zero(v) {
        let j = choose|j: int| #[trigger] at(v, j) != 0;
        assert(0 <= j < v.len());
        assert(j < p);
    }
}

/// Whether every character is a digit.
fn scan_digits(s: &str) -> (r: bool)
    ensures
        r == all_digits(s@),
{
    let n = s.unicode_len();
    let mut i: usize = 0;
    while i < n
        invariant
            n == s@.len(),
            i <= n,
            forall|j: int| 0 <= j < i ==> is_digit(#[trigger] s@[j]),
        decreases n - i,
    {
        let c = s.get_char(i);
        if !('0' <= c && c <= '9') {
            assert(!is_digit(s@[i as int]));
            return false;
        }
        i += 1;
    }
    true
}

/// Appends the value of each digit of `t`.
fn push_digits(t: &str, ds: &mut Vec<u8>)
    requires
        all_digits(t@),
    ensures
        final(ds)@.len() == old(ds)@.len() + t@.len(),
        forall|k: int| 0 <= k < old(ds)@.len() ==> #[trigger] final(ds)@[k] == old(ds)@[k],
        forall|k: int|
            0 <= k < t@.len() ==> final(ds)@[old(ds)@.len() + k] as nat == digit_value(
                #[trigger] t@[k],
            ),
{
    let n = t.unicode_len();
    let mut i: usize = 0;
    while i < n
        invariant
            n == t@.len(),
            i <= n,
            all_digits(t@),
            ds@.len() == old(ds)@.len() + i,
            forall|k: int| 0 <= k < old(ds)@.len() ==> #[trigger] ds@[k] == old(ds)@[k],
            forall|k: int|
                0 <= k < i ==> ds@[old(ds)@.len() + k] as nat == digit_value(#[trigger] t@[k]),
        decreases n - i,
    {
        let c = t.get_char(i);
        assert(is_digit(t@[i as int]));
        ds.push((c as u32 - '0' as u32) as u8);
        i += 1;
    }
}

/// Reads an exponent, its magnitude saturated just past `EXP_CAP`.
fn parse_exponent(t: &str) -> (r: Option<i128>)
    ensures
        r.is_some() == is_exponent_text(t@),
        r.is_some() ==> r.unwrap() == clamp_exponent(signed_value(t@)),
{
    let n = t.unicode_len();
    let negative = n > 0 && t.get_char(0) == '-';
    let start: usize = if n > 0 && (t.get_char(0) == '+' || t.get_char(0) == '-') {
        1
    } else {
        0
    };
    let ghost d = exponent_digits(t@);
    assert(d =~= t@.skip(start as int));
    if start == n {
        assert(d.len() == 0);
        return None;
    }
    let mut mag: i128 = 0;
    let mut i: usize = start;
    while i < n
        invariant
            n == t@.len(),
            start <= i <= n,
            d =~= t@.skip(start as int),
            d == exponent_digits(t@),
            forall|j: int| 0 <= j < i - start ==> is_digit(#[trigger] d[j]),
            mag == (if digits_value(d.take(i - start)) > EXP_CAP {
                EXP_CAP + 1
            } else {
                digits_value(d.take(i - start)) as int
            }),
        decreases n - i,
    {
        let c = t.get_char(i);
        assert(d[i - start] == t@[i as int]);
        if !('0' <= c && c <= '9') {
            assert(!is_digit(d[i - start]));
            return None;
        }
        let ghost k = i - start;
        assert(d.take(k + 1).drop_last() =~= d.take(k));
        assert(d.take(k + 1).last() == c);
        if mag <= EXP_CAP {
            mag = mag * 10 + (c as u32 - '0' as u32) as i128;
            if mag > EXP_CAP {
                mag = EXP_CAP + 1;
            }
        }
        i += 1;
    }
    assert(d.take(n - start) =~= d);
    if negative {
        Some(-mag)
    } else {
        Some(mag)
    }
}

/// The digit at index `j`, zero outside the digits.
fn digit_of(ds: &Vec<u8>, j: i128) -> (r: u8)
    ensures
        r as nat == at(nat_digits(ds@), j as int),
{
    if 0 <= j && j < ds.len() as i128 {
        ds[j as usize]
    } else {
        0
    }
}

/// Whether all digits are zero, and whether those before and after index `p` are.
fn scan_zeros(ds: &Vec<u8>, p: i128) -> (r: (bool, bool, bool))
    ensures
        r.0 == all_zero(nat_digits(ds@)),
        r.1 == (forall|k: int| k < p ==> #[trigger] at(nat_digits(ds@), k) == 0),
        r.2 == (forall|k: int| k > p ==> #[trigger] at(nat_digits(ds@), k) == 0),
{
    let ghost v = nat_digits(ds@);
    let len = ds.len();
    let mut zero = true;
    let mut below = true;
    let mut above = true;
    let mut j: usize = 0;
    while j < len
        invariant
            len == ds@.len(),
            v == nat_digits(ds@),
            j <= len,
            zero == (forall|k: int| 0 <= k < j ==> #[trigger] at(v, k) == 0),
            below == (forall|k: int| 0 <= k < j && k < p ==> #[trigger] at(v, k) == 0),
            above == (forall|k: int| 0 <= k < j && k > p ==> #[trigger] at(v, k) == 0),
        decreases len - j,
    {
        assert(at(v, j as int) == ds@[j as int] as nat);
        if ds[j] != 0 {
            zero = false;
            if (j as i128) < p {
                below = false;
            }
            if (j as i128) > p {
                above = false;
            }
        }
        j += 1;
    }
    assert(zero == all_zero(v)) by {
        if zero {
            assert forall|k: int| #[trigger] at(v, k) == 0 by {
                if 0 <= k < len {
                }
            }
        }
    }
    assert(below == (forall|k: int| k < p ==> #[trigger] at(v, k) == 0)) by {
        if below {
            assert forall|k: int| k < p implies #[trigger] at(v, k) == 0 by {
                if 0 <= k < len {
                }
            }
        }
    }
    assert(above == (forall|k: int| k > p ==> #[trigger] at(v, k) == 0)) by {
        if above {
            assert forall|k: int| k > p implies #[trigger] at(v, k) == 0 by {
                if 0 <= k < len {
                }
            }
        }
    }
    (zero, below, above)
}

/// The nine decimals after the point before index `p`, rounded half up, in billionths.
fn billionths_of(ds: &Vec<u8>, p: i128) -> (r: u32)
    requires
        is_digit_seq(nat_digits(ds@)),
        -EXP_CAP * 2 <= p <= EXP_CAP * 2,
    ensures
        r == billionths_at(nat_digits(ds@), p as int),
{
    let ghost v = nat_digits(ds@);
    proof {
        lemma_billionths_bound(v, p as int);
    }
    let mut num: u64 = 0;
    let mut i: usize = 0;
    while i < 9
        invariant
            i <= 9,
            v == nat_digits(ds@),
            is_digit_seq(v),
            num == scaled_at(v, p as int, i as nat),
            num <= 999_999_999,
            -EXP_CAP * 2 <= p <= EXP_CAP * 2,
        decreases 9 - i,
    {
        proof {
            lemma_billionths_bound(v, p as int);
            reveal_with_fuel(scaled_at, 10);
        }
        let d = digit_of(ds, p + i as i128);
        num = num * 10 + d as u64;
        i += 1;
        proof {
            if i < 9 {
                lemma_scaled_prefix(v, p as int, i as nat);
            }
        }
    }
    let last = digit_of(ds, p + 9);
    if last >= 5 {
        num = num + 1;
    }
    num as u32
}

/// A prefix of the nine decimals is no larger than all nine.
proof fn lemma_scaled_prefix(v: Seq<nat>, p: int, n: nat)
    requires
        n <= 9,
    ensures
        scaled_at(v, p, n) <= scaled_at(v, p, 9),
    decreases 9 - n,
{
    if n < 9 {
        lemma_scaled_prefix(v, p, n + 1);
    }
}

/// Reads a threshold token (a decimal number such as `0.1`, `.25` or `1e-1`), accepts it
/// when its value lies in `[0, 0.5]`, and stores it rounded half up to nine decimals.
#[verifier::rlimit(90)]
pub fn check_threshold_valid(s: &str) -> (r: Result<Fraction, ThresholdError>)
    ensures
        !is_number_text(s@) <==> r == Err::<Fraction, ThresholdError>(ThresholdError::NotANumber),
        r.is_ok() <==> is_number_text(s@) && threshold_in_range(s@),
        r.is_ok() ==> r.unwrap().wf() && r.unwrap().den == THRESHOLD_SCALE && r.unwrap().num
            == billionths(s@),
{
    let n = s.unicode_len();
    let negative = n > 0 && s.get_char(0) == '-';
    let sl: usize = if n > 0 && (s.get_char(0) == '+' || s.get_char(0) == '-') {
        1
    } else {
        0
    };
    let body = s.substring_char(sl, n);
    assert(body@ =~= unsigned_part(s@));
    let bl = body.unicode_len();
    let ei = find_char(body, 'e');
    let ek = find_char(body, 'E');
    let cut: Option<usize> = match (ei, ek) {
        (Some(i), Some(k)) => Some(if i < k {
            i
        } else {
            k
        }),
        (Some(i), None) => Some(i),
        (None, k) => k,
    };
    let (mant, exp_text) = match cut {
        Some(c) => (body.substring_char(0, c), body.substring_char(c + 1, bl)),
        None => (body, body.substring_char(0, 0)),
    };
    assert(mant@ =~= mantissa(s@));
    assert(exp_text@ =~= exponent_text(s@));
    let (whole, frac) = split_first(mant, '.');
    if !scan_digits(whole) || !scan_digits(frac) || whole.unicode_len() + frac.unicode_len() == 0 {
        return Err(ThresholdError::NotANumber);
    }
    let exp: i128 = match cut {
        Some(_) => match parse_exponent(exp_text) {
            Some(e) => e,
            None => {
                return Err(ThresholdError::NotANumber);
            },
        },
        None => 0,
    };
    let mut ds: Vec<u8> = Vec::new();
    push_digits(whole, &mut ds);
    push_digits(frac, &mut ds);
    let ghost v = digit_values(s@);
    assert(nat_digits(ds@) =~= v) by {
        let md = mantissa_digits(s@);
        assert forall|j: int| 0 <= j < ds@.len() implies nat_digits(ds@)[j] == v[j] by {
            if j < whole@.len() {
                assert(md[j] == whole@[j]);
            } else {
                assert(md[j] == frac@[j - whole@.len()]);
            }
        }
    }
    assert(is_digit_seq(v));
    let p: i128 = whole.unicode_len() as i128 + exp;
    proof {
        if p != point(s@) {
            assert(v.len() <= s@.len());
            lemma_far_points(v, p as int, point(s@));
        }
    }
    let (zero, below, above) = scan_zeros(&ds, p);
    let dp = digit_of(&ds, p);
    let in_range = zero || (!negative && below && (dp < 5 || (dp == 5 && above)));
    if !in_range {
        return Err(ThresholdError::OutOfRange);
    }
    let num = billionths_of(&ds, p);
    proof {
        lemma_billionths_bound(v, p as int);
    }
    Ok(Fraction { num, den: THRESHOLD_SCALE })
}

} // verus!
