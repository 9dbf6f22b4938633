use vstd::prelude::*;

verus! {

/// `i` is the first index of `c` in `s`.
pub open spec fn is_first(s: Seq<char>, c: char, i: int) -> bool {
    0 <= i < s.len() && s[i] == c && forall|j: int| 0 <= j < i ==> s[j] != c
}

/// Index of the first `c` in `s`, or `-1` when there is none.
pub open spec fn first_index(s: Seq<char>, c: char) -> int {
    if exists|i: int| is_first(s, c, i) {
        choose|i: int| is_first(s, c, i)
    } else {
        -1
    }
}

/// The text before the first `c` (all of `s` when there is none).
pub open spec fn field(s: Seq<char>, c: char) -> Seq<char> {
    if first_index(s, c) < 0 {
        s
    } else {
        s.take(first_index(s, c))
    }
}

/// The text after the first `c` (empty when there is none).
pub open spec fn rest(s: Seq<char>, c: char) -> Seq<char> {
    if first_index(s, c) < 0 {
        Seq::empty()
    } else {
        s.skip(first_index(s, c) + 1)
    }
}

pub open spec fn is_digit(c: char) -> bool {
    '0' <= c && c <= '9'
}

pub open spec fn digit_value(c: char) -> nat {
    if is_digit(c) {
        (c as int - '0' as int) as nat
    } else {
        0
    }
}

/// Decimal value of a string of digits.
pub open spec fn digits_value(s: Seq<char>) -> nat
    decreases s.len(),
{
    if s.len() == 0 {
        0
    } else {
        digits_value(s.drop_last()) * 10 + digit_value(s.last())
    }
}

/// The digits of an unsigned number, after an optional leading `+`.
pub open spec fn unsigned_digits(s: Seq<char>) -> Seq<char> {
    if s.len() > 0 && s[0] == '+' {
        s.skip(1)
    } else {
        s
    }
}

/// `s` is the decimal text of a `u32`: an optional `+`, then one or more digits.
pub open spec fn is_u32_text(s: Seq<char>) -> bool {
    let d = unsigned_digits(s);
    d.len() > 0 && (forall|i: int| 0 <= i < d.len() ==> is_digit(#[trigger] d[i]))
        && digits_value(d) <= u32::MAX
}

pub open spec fn u32_value(s: Seq<char>) -> nat {
    digits_value(unsigned_digits(s))
}

/// The position part of a region token: between the first and any second `:`.
pub open spec fn positions_text(s: Seq<char>) -> Seq<char> {
    field(rest(s, ':'), ':')
}

pub open spec fn has_range(s: Seq<char>) -> bool {
    first_index(positions_text(s), '-') >= 0
}

pub open spec fn start_text(s: Seq<char>) -> Seq<char> {
    field(positions_text(s), '-')
}

pub open spec fn end_text(s: Seq<char>) -> Seq<char> {
    field(rest(positions_text(s), '-'), '-')
}

/// Every `-`-separated field of `s` is the decimal text of a `u32`.
pub open spec fn all_fields_u32(s: Seq<char>) -> bool
    decreases s.len(),
    via all_fields_u32_decreases
{
    if first_index(s, '-') < 0 {
        is_u32_text(s)
    } else {
        is_u32_text(field(s, '-')) && all_fields_u32(rest(s, '-'))
    }
}

#[via_fn]
proof fn all_fields_u32_decreases(s: Seq<char>) {
    if first_index(s, '-') >= 0 {
        assert(is_first(s, '-', first_index(s, '-')));
    }
}

/// A region token `CHROM`, `CHROM:POS` or `CHROM:START-END` whose position fields are
/// all numbers that fit a `u32` (fields after a second `-` included).
pub open spec fn region_well_formed(s: Seq<char>) -> bool {
    first_index(s, ':') < 0 || all_fields_u32(positions_text(s))
}

proof fn lemma_first_unique(s: Seq<char>, c: char, i: int)
    requires
        is_first(s, c, i),
    ensures
        first_index(s, c) == i,
{
    let k = first_index(s, c);
    assert(is_first(s, c, k));
    if k < i {
        assert(s[k] != c);
    } else if i < k {
        assert(s[i] != c);
    }
}

/// Index of the first `c` in `s`.
pub(crate) fn find_char(s: &str, c: char) -> (r: Option<usize>)
    ensures
        match r {
            Some(i) => first_index(s@, c) == i && i < s@.len(),
            None => first_index(s@, c) == -1,
        },
{
    let n = s.unicode_len();
    let mut i: usize = 0;
    while i < n
        invariant
            n == s@.len(),
            i <= n,
            forall|j: int| 0 <= j < i ==> s@[j] != c,
        decreases n - i,
    {
        if s.get_char(i) == c {
            proof {
                lemma_first_unique(s@, c, i as int);
            }
            return Some(i);
        }
        i += 1;
    }
    assert(!exists|i: int| is_first(s@, c, i));
    None
}

/// Splits `s` at its first `c` into the text before and the text after.
pub(crate) fn split_first(s: &str, c: char) -> (r: (&str, &str))
    ensures
        r.0@ == field(s@, c),
        r.1@ == rest(s@, c),
{
    match find_char(s, c) {
        Some(i) => {
            let n = s.unicode_len();
            let before = s.substring_char(0, i);
            let after = s.substring_char(i + 1, n);
            assert(before@ =~= s@.take(i as int));
            assert(after@ =~= s@.skip(i + 1));
            (before, after)
        },
        None => {
            let empty = s.substring_char(0, 0);
            assert(empty@ =~= Seq::<char>::empty());
            (s, empty)
        },
    }
}

/// Reads the decimal text of a `u32` (an optional `+`, then digits).
pub fn parse_u32(s: &str) -> (r: Option<u32>)
    ensures
        match r {
            Some(v) => is_u32_text(s@) && v == u32_value(s@),
            None => !is_u32_text(s@),
        },
{
    let n = s.unicode_len();
    let mut i: usize = 0;
    if n > 0 && s.get_char(0) == '+' {
        i = 1;
    }
    let ghost d = unsigned_digits(s@);
    let ghost off = i as int;
    assert(d =~= s@.skip(off));
    if i == n {
        return None;
    }
    let mut value: u64 = 0;
    while i < n
        invariant
            n == s@.len(),
            0 <= off <= i <= n,
            off < n,
            d =~= s@.skip(off),
            d == unsigned_digits(s@),
            forall|j: int| 0 <= j < i - off ==> is_digit(#[trigger] d[j]),
            value == digits_value(d.take(i - off)),
            value <= u32::MAX,
        decreases n - i,
    {
        let ch = s.get_char(i);
        assert(d[i - off] == s@[i as int]);
        if !('0' <= ch && ch <= '9') {
            assert(!is_digit(d[i - off]));
            assert(!is_u32_text(s@));
            return None;
        }
        let ghost k = i - off;
        assert(d.take(k + 1).drop_last() =~= d.take(k));
        assert(d.take(k + 1).last() == ch);
        value = value * 10 + (ch as u64 - '0' as u64);
        i += 1;
        if value > u32::MAX as u64 {
            proof {
                if forall|j: int| 0 <= j < d.len() ==> is_digit(#[trigger] d[j]) {
                    lemma_digits_grow(d, k + 1);
                }
            }
            return None;
        }
    }
    assert(d.take(n - off) =~= d);
    Some(value as u32)
}

/// A longer run of digits never has a smaller value.
proof fn lemma_digits_grow(d: Seq<char>, k: int)
    requires
        0 <= k <= d.len(),
        forall|j: int| 0 <= j < d.len() ==> is_digit(#[trigger] d[j]),
    ensures
        digits_value(d) >= digits_value(d.take(k)),
    decreases d.len() - k,
{
    if k < d.len() {
        lemma_digits_grow(d, k + 1);
        assert(d.take(k + 1).drop_last() =~= d.take(k));
        assert(is_digit(d[k]));
    } else {
        assert(d.take(k) =~= d);
    }
}

/// Whether every `-`-separated field of `s` is a `u32`.
fn all_fields_ok(s: &str) -> (r: bool)
    ensures
        r == all_fields_u32(s@),
{
    let mut cur = s;
    loop
        invariant
            all_fields_u32(s@) == all_fields_u32(cur@),
        decreases cur@.len(),
    {
        let (f, r) = split_first(cur, '-');
        let found = find_char(cur, '-');
        if parse_u32(f).is_none() {
            return false;
        }
        match found {
            None => {
                return true;
            },
            Some(_) => {
                cur = r;
            },
        }
    }
}

/// Whether a region token can be read by `parse_region`.
pub fn is_valid_region(region: &str) -> (r: bool)
    ensures
        r == region_well_formed(region@),
{
    let (_chrom, after) = split_first(region, ':');
    if find_char(region, ':').is_none() {
        return true;
    }
    let (positions, _) = split_first(after, ':');
    all_fields_ok(positions)
}

/// Reads a region token `CHROM`, `CHROM:POS` or `CHROM:START-END` (1-based, inclusive)
/// into the chromosome, the start (1 when absent) and the end, if any.
pub fn parse_region(region: &str) -> (r: (&str, u32, Option<u32>))
    requires
        region_well_formed(region@),
    ensures
        r.0@ == field(region@, ':'),
        first_index(region@, ':') < 0 ==> r.1 == 1 && r.2 == None::<u32>,
        first_index(region@, ':') >= 0 && has_range(region@) ==> r.1 == u32_value(
            start_text(region@),
        ) && r.2 == Some(u32_value(end_text(region@)) as u32),
        first_index(region@, ':') >= 0 && !has_range(region@) ==> r.1 == u32_value(
            positions_text(region@),
        ) && r.2 == None::<u32>,
{
    let (chrom, after) = split_first(region, ':');
    if find_char(region, ':').is_none() {
        return (chrom, 1, None);
    }
    let (positions, _) = split_first(after, ':');
    proof {
        reveal_with_fuel(all_fields_u32, 2);
    }
    if find_char(positions, '-').is_some() {
        let (start, tail) = split_first(positions, '-');
        let (end, _) = split_first(tail, '-');
        match (parse_u32(start), parse_u32(end)) {
            (Some(s), Some(e)) => (chrom, s, Some(e)),
            _ => (chrom, 0, None),
        }
    } else {
        match parse_u32(positions) {
            Some(s) => (chrom, s, None),
            None => (chrom, 0, None),
        }
    }
}

/// The chromosomes to visit: the one named, or else every target of the file's header.
pub fn get_tids(chrom: Option<&str>, target_names: &Vec<String>) -> (r: Vec<String>)
    ensures
        chrom.is_some() ==> r@.len() == 1 && r@[0]@ == chrom.unwrap()@,
        chrom.is_none() ==> r@.len() == target_names@.len() && forall|i: int|
            0 <= i < r@.len() ==> #[trigger] r@[i]@ == target_names@[i]@,
{
    match chrom {
        Some(c) => {
            let mut out: Vec<String> = Vec::new();
            out.push(c.to_owned());
            out
        },
        None => {
            let mut out: Vec<String> = Vec::new();
            let n = target_names.len();
            let mut i: usize = 0;
            while i < n
                invariant
                    n == target_names@.len(),
                    i <= n,
                    out@.len() == i,
                    forall|j: int| 0 <= j < i ==> #[trigger] out@[j]@ == target_names@[j]@,
                decreases n - i,
            {
                out.push(target_names[i].clone());
                i += 1;
            }
            out
        },
    }
}

/// Turns a 1-based inclusive start and an optional end into a 0-based half-open window;
/// an absent bound leaves that side open.
pub fn get_start_stop(start: Option<u32>, stop: Option<u32>) -> (r: (u32, u32))
    requires
        start.is_some() || stop.is_none(),
        start.is_some() ==> start.unwrap() >= 1,
    ensures
        r.0 == (if start.is_some() {
            start.unwrap() - 1
        } else {
            0
        }),
        r.1 == (if stop.is_some() {
            stop.unwrap()
        } else {
            u32::MAX
        }),
{
    match (start, stop) {
        (Some(s), Some(e)) => (s - 1, e),
        (Some(s), None) => (s - 1, u32::MAX),
        (None, _) => (0, u32::MAX),
    }
}

} // verus!
