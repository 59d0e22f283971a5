//! Character-level helpers on strings: conversion between `&str`/`String`
//! and character vectors, decimal rendering and parsing of integers.
use vstd::prelude::*;

verus! {

broadcast use vstd::string::group_string_axioms;

/// Appends one character to a string (`String::push`).
/// Claimed: the new string is the old one with `c` added at the end.
#[verifier::external_body]
pub(crate) fn push_char(s: &mut String, c: char)
    ensures
        final(s)@ == old(s)@.push(c),
{
    s.push(c);
}

/// The characters of `s`, in order.
pub fn chars_of(s: &str) -> (v: Vec<char>)
    ensures
        v@ == s@,
{
    let mut v: Vec<char> = Vec::new();
    for c in it: s.chars()
        invariant
            v@ == it.seq().take(it.index() as int),
            it.seq() == s@,
    {
        v.push(c);
    }
    v
}

/// A string made of the given characters.
pub fn string_from_chars(cs: &[char]) -> (s: String)
    ensures
        s@ == cs@,
{
    let mut s = String::new();
    let mut i: usize = 0;
    while i < cs.len()
        invariant
            i <= cs.len(),
            s@ == cs@.take(i as int),
        decreases cs.len() - i,
    {
        push_char(&mut s, cs[i]);
        i += 1;
        assert(cs@.take(i as int) == cs@.take(i - 1).push(cs@[i - 1]));
    }
    assert(cs@.take(cs.len() as int) == cs@);
    s
}


/// Why a string is not the decimal form of an `i64`; the kinds of
/// `std::num::IntErrorKind` that decimal parsing of a signed integer produces.
#[derive(Clone, Copy, Debug, PartialEq, Eq, Structural)]
pub enum ParseIntError {
    /// The string is empty.
    Empty,
    /// A character is not a decimal digit, or a sign stands alone.
    InvalidDigit,
    /// The value is above `i64::MAX`.
    PosOverflow,
    /// The value is below `i64::MIN`.
    NegOverflow,
}

impl ParseIntError {
    /// The message that `std::num::ParseIntError` displays for this kind.
    pub fn message(&self) -> (m: &'static str)
        ensures
            m@ == self.spec_message(),
    {
        match self {
            ParseIntError::Empty => "cannot parse integer from empty string",
            ParseIntError::InvalidDigit => "invalid digit found in string",
            ParseIntError::PosOverflow => "number too large to fit in target type",
            ParseIntError::NegOverflow => "number too small to fit in target type",
        }
    }

    pub open spec fn spec_message(&self) -> Seq<char> {
        match self {
            ParseIntError::Empty => "cannot parse integer from empty string"@,
            ParseIntError::InvalidDigit => "invalid digit found in string"@,
            ParseIntError::PosOverflow => "number too large to fit in target type"@,
            ParseIntError::NegOverflow => "number too small to fit in target type"@,
        }
    }
}

pub open spec fn is_digit(c: char) -> bool {
    '0' <= c && c <= '9'
}

pub open spec fn digit_value(c: char) -> int {
    (c as int) - ('0' as int)
}

pub open spec fn in_i64(v: int) -> bool {
    i64::MIN <= v && v <= i64::MAX
}

/// Reading the digits `d` left to right into an accumulator that stays an
/// `i64`: each step multiplies by ten and adds (or, for a negative number,
/// subtracts) the digit.  The first failure met, from the left, is the result.
pub open spec fn scan_digits(d: Seq<char>, negative: bool) -> Result<int, ParseIntError>
    decreases d.len(),
{
    if d.len() == 0 {
        Ok(0)
    } else {
        match scan_digits(d.drop_last(), negative) {
            Err(e) => Err(e),
            Ok(v) => {
                let c = d.last();
                if !is_digit(c) {
                    Err(ParseIntError::InvalidDigit)
                } else {
                    let nv = if negative { v * 10 - digit_value(c) } else { v * 10 + digit_value(c) };
                    if in_i64(nv) {
                        Ok(nv)
                    } else if negative {
                        Err(ParseIntError::NegOverflow)
                    } else {
                        Err(ParseIntError::PosOverflow)
                    }
                }
            }
        }
    }
}

/// What `str::parse::<i64>` gives for `s`: an optional sign followed by one
/// or more decimal digits, with no other character.
pub open spec fn spec_parse_i64(s: Seq<char>) -> Result<int, ParseIntError> {
    if s.len() == 0 {
        Err(ParseIntError::Empty)
    } else if (s[0] == '+' || s[0] == '-') && s.len() == 1 {
        Err(ParseIntError::InvalidDigit)
    } else if s[0] == '-' {
        scan_digits(s.drop_first(), true)
    } else if s[0] == '+' {
        scan_digits(s.drop_first(), false)
    } else {
        scan_digits(s, false)
    }
}

proof fn lemma_scan_in_range(d: Seq<char>, negative: bool)
    ensures
        scan_digits(d, negative) matches Ok(v) ==> in_i64(v),
    decreases d.len(),
{
    if d.len() > 0 {
        lemma_scan_in_range(d.drop_last(), negative);
    }
}

fn scan_digit_chars(d: &[char], start: usize, negative: bool) -> (r: Result<i64, ParseIntError>)
    requires
        start <= d@.len(),
    ensures
        match scan_digits(d@.skip(start as int), negative) {
            Ok(v) => r == Ok::<i64, ParseIntError>(v as i64),
            Err(e) => r == Err::<i64, ParseIntError>(e),
        },
{
    let ghost ds = d@.skip(start as int);
    let mut acc: i64 = 0;
    let mut i: usize = start;
    while i < d.len()
        invariant
            start <= i <= d@.len(),
            ds == d@.skip(start as int),
            scan_digits(ds.take(i - start), negative) == Ok::<int, ParseIntError>(acc as int),
            negative ==> acc <= 0,
            !negative ==> acc >= 0,
        decreases d.len() - i,
    {
        let c = d[i];
        assert(ds.take(i + 1 - start).drop_last() == ds.take(i - start));
        assert(ds.take(i + 1 - start).last() == c);
        if !('0' <= c && c <= '9') {
            proof { lemma_scan_error_extends(ds, (i + 1 - start) as int, negative); }
            return Err(ParseIntError::InvalidDigit);
        }
        let dv: i64 = (c as u32 - '0' as u32) as i64;
        assert(dv == digit_value(c));
        if negative {
            let next = match acc.checked_mul(10) {
                Some(m) => m.checked_sub(dv),
                None => None,
            };
            match next {
                Some(n) => { acc = n; },
                None => {
                    proof { lemma_scan_error_extends(ds, (i + 1 - start) as int, negative); }
                    return Err(ParseIntError::NegOverflow);
                },
            }
        } else {
            let next = match acc.checked_mul(10) {
                Some(m) => m.checked_add(dv),
                None => None,
            };
            match next {
                Some(n) => { acc = n; },
                None => {
                    proof { lemma_scan_error_extends(ds, (i + 1 - start) as int, negative); }
                    return Err(ParseIntError::PosOverflow);
                },
            }
        }
        i += 1;
    }
    assert(ds.take(d@.len() - start) == ds);
    Ok(acc)
}

/// An error met in a prefix of the digits stays the result for the whole.
proof fn lemma_scan_error_extends(d: Seq<char>, n: int, negative: bool)
    requires
        0 <= n <= d.len(),
        scan_digits(d.take(n), negative) is Err,
    ensures
        scan_digits(d, negative) == scan_digits(d.take(n), negative),
    decreases d.len() - n,
{
    if n < d.len() {
        assert(d.take(n + 1).drop_last() == d.take(n));
        lemma_scan_error_extends(d, n + 1, negative);
    } else {
        assert(d.take(n) == d);
    }
}

/// `str::parse::<i64>`, written out: an optional `+` or `-`, then decimal
/// digits only.
pub fn parse_i64(s: &str) -> (r: Result<i64, ParseIntError>)
    ensures
        match spec_parse_i64(s@) {
            Ok(v) => r == Ok::<i64, ParseIntError>(v as i64),
            Err(e) => r == Err::<i64, ParseIntError>(e),
        },
{
    let cs = chars_of(s);
    if cs.len() == 0 {
        return Err(ParseIntError::Empty);
    }
    if (cs[0] == '+' || cs[0] == '-') && cs.len() == 1 {
        return Err(ParseIntError::InvalidDigit);
    }
    if cs[0] == '-' {
        assert(cs@.skip(1) == s@.drop_first());
        scan_digit_chars(&cs, 1, true)
    } else if cs[0] == '+' {
        assert(cs@.skip(1) == s@.drop_first());
        scan_digit_chars(&cs, 1, false)
    } else {
        assert(cs@.skip(0) == s@);
        scan_digit_chars(&cs, 0, false)
    }
}


pub open spec fn digit_char(d: int) -> char {
    (('0' as int) + d) as char
}

/// The decimal digits of `n`, most significant first, without leading zeros.
pub open spec fn nat_text(n: nat) -> Seq<char>
    decreases n,
{
    if n < 10 {
        seq![digit_char(n as int)]
    } else {
        nat_text(n / 10).push(digit_char((n % 10) as int))
    }
}

/// How `{}` shows an integer: a `-` before the digits of a negative number.
pub open spec fn int_text(n: int) -> Seq<char> {
    if n < 0 {
        seq!['-'] + nat_text((-n) as nat)
    } else {
        nat_text(n as nat)
    }
}

fn u64_digits(n: u64) -> (v: Vec<char>)
    ensures
        v@ == nat_text(n as nat),
    decreases n,
{
    let d: u8 = (n % 10) as u8;
    let c: char = (48u8 + d) as char;
    assert(c == digit_char((n % 10) as int));
    if n < 10 {
        let mut v: Vec<char> = Vec::new();
        v.push(c);
        assert(v@ == seq![c]);
        v
    } else {
        let mut v = u64_digits(n / 10);
        v.push(c);
        v
    }
}

/// The decimal text of an unsigned integer, as `{}` shows it.
pub fn u64_to_text(n: u64) -> (s: String)
    ensures
        s@ == nat_text(n as nat),
{
    let v = u64_digits(n);
    string_from_chars(v.as_slice())
}

/// The decimal text of a signed integer, as `{}` shows it.
pub fn i64_to_text(n: i64) -> (s: String)
    ensures
        s@ == int_text(n as int),
{
    if n < 0 {
        let magnitude: u64 = ((-(n + 1)) as u64) + 1;
        let mut s = String::new();
        push_char(&mut s, '-');
        let digits = u64_to_text(magnitude);
        s.append(digits.as_str());
        assert(s@ == seq!['-'] + nat_text(magnitude as nat));
        s
    } else {
        u64_to_text(n as u64)
    }
}

proof fn lemma_nat_text_shape(n: nat)
    ensures
        nat_text(n).len() >= 1,
        forall|i: int| 0 <= i < nat_text(n).len() ==> is_digit(#[trigger] nat_text(n)[i]),
    decreases n,
{
    if n >= 10 {
        lemma_nat_text_shape(n / 10);
    }
}

proof fn lemma_scan_nat_text(n: nat, negative: bool)
    requires
        negative ==> n <= 0x8000_0000_0000_0000,
        !negative ==> n <= 0x7fff_ffff_ffff_ffff,
    ensures
        scan_digits(nat_text(n), negative) == Ok::<int, ParseIntError>(
            if negative { -(n as int) } else { n as int },
        ),
    decreases n,
{
    let t = nat_text(n);
    if n < 10 {
        assert(t.drop_last() =~= Seq::<char>::empty());
        assert(scan_digits(t.drop_last(), negative) == Ok::<int, ParseIntError>(0));
    } else {
        lemma_scan_nat_text(n / 10, negative);
        assert(t.drop_last() == nat_text(n / 10));
    }
}

/// Reading back the decimal text of an `i64` gives the same `i64`.
pub proof fn lemma_parse_i64_of_text(n: i64)
    ensures
        spec_parse_i64(int_text(n as int)) == Ok::<int, ParseIntError>(n as int),
{
    if n < 0 {
        let m: nat = (-(n as int)) as nat;
        lemma_scan_nat_text(m, true);
        lemma_nat_text_shape(m);
        let t = int_text(n as int);
        assert(t.drop_first() =~= nat_text(m));
    } else {
        lemma_scan_nat_text(n as nat, false);
        lemma_nat_text_shape(n as nat);
        assert(is_digit(nat_text(n as nat)[0]));
    }
}


/// `s` begins with `p`.
pub open spec fn text_starts_with(s: Seq<char>, p: Seq<char>) -> bool {
    p.len() <= s.len() && s.subrange(0, p.len() as int) == p
}

/// `p` occurs in `s` at some position.
pub open spec fn text_contains(s: Seq<char>, p: Seq<char>) -> bool {
    exists|i: int| 0 <= i && i + p.len() <= s.len() && #[trigger] s.subrange(i, i + p.len()) == p
}

fn occurs_at(s: &[char], p: &[char], i: usize) -> (b: bool)
    requires
        i + p@.len() <= s@.len(),
    ensures
        b == (s@.subrange(i as int, i + p@.len()) == p@),
{
    let mut k: usize = 0;
    while k < p.len()
        invariant
            i + p@.len() <= s@.len(),
            s@.len() == s.len(),
            k <= p@.len(),
            forall|j: int| 0 <= j < k ==> s@[i + j] == p@[j],
        decreases p@.len() - k,
    {
        if s[i + k] != p[k] {
            assert(s@.subrange(i as int, i + p@.len())[k as int] != p@[k as int]);
            return false;
        }
        k += 1;
    }
    assert(s@.subrange(i as int, i + p@.len()) =~= p@);
    true
}

/// Whether `s` begins with `p` (`str::starts_with`).
pub fn starts_with_text(s: &str, p: &str) -> (b: bool)
    ensures
        b == text_starts_with(s@, p@),
{
    let sc = chars_of(s);
    let pc = chars_of(p);
    if pc.len() > sc.len() {
        return false;
    }
    occurs_at(sc.as_slice(), pc.as_slice(), 0)
}

/// Whether `p` occurs in `s` (`str::contains`).
pub fn contains_text_in(s: &str, p: &str) -> (b: bool)
    ensures
        b == text_contains(s@, p@),
{
    let sc = chars_of(s);
    let pc = chars_of(p);
    if pc.len() > sc.len() {
        assert forall|i: int| 0 <= i && i + p@.len() <= s@.len() implies #[trigger] s@.subrange(i, i + p@.len()) != p@ by {}
        return false;
    }
    let last = sc.len() - pc.len();
    let mut i: usize = 0;
    loop
        invariant
            sc@ == s@,
            pc@ == p@,
            last == sc@.len() - pc@.len(),
            i <= last,
            forall|j: int| 0 <= j < i ==> #[trigger] s@.subrange(j, j + p@.len()) != p@,
        decreases last - i,
    {
        if occurs_at(sc.as_slice(), pc.as_slice(), i) {
            return true;
        }
        if i == last {
            return false;
        }
        i += 1;
    }
}

/// What `str::parse::<usize>` gives: an optional `+`, then decimal digits
/// only, with a value that fits in `usize`.
pub open spec fn spec_parse_usize(s: Seq<char>) -> Result<int, ParseIntError> {
    if s.len() == 0 {
        Err(ParseIntError::Empty)
    } else if s[0] == '+' && s.len() == 1 {
        Err(ParseIntError::InvalidDigit)
    } else if s[0] == '+' {
        scan_unsigned(s.drop_first())
    } else {
        scan_unsigned(s)
    }
}

/// Reading unsigned digits left to right into an accumulator that stays a
/// `usize`.
pub open spec fn scan_unsigned(d: Seq<char>) -> Result<int, ParseIntError>
    decreases d.len(),
{
    if d.len() == 0 {
        Ok(0)
    } else {
        match scan_unsigned(d.drop_last()) {
            Err(e) => Err(e),
            Ok(v) => {
                let c = d.last();
                if !is_digit(c) {
                    Err(ParseIntError::InvalidDigit)
                } else if v * 10 + digit_value(c) <= usize::MAX {
                    Ok(v * 10 + digit_value(c))
                } else {
                    Err(ParseIntError::PosOverflow)
                }
            }
        }
    }
}

proof fn lemma_unsigned_range(d: Seq<char>)
    ensures
        scan_unsigned(d) matches Ok(v) ==> 0 <= v <= usize::MAX,
    decreases d.len(),
{
    if d.len() > 0 {
        lemma_unsigned_range(d.drop_last());
    }
}

proof fn lemma_unsigned_error_extends(d: Seq<char>, n: int)
    requires
        0 <= n <= d.len(),
        scan_unsigned(d.take(n)) is Err,
    ensures
        scan_unsigned(d) == scan_unsigned(d.take(n)),
    decreases d.len() - n,
{
    if n < d.len() {
        assert(d.take(n + 1).drop_last() == d.take(n));
        lemma_unsigned_error_extends(d, n + 1);
    } else {
        assert(d.take(n) == d);
    }
}

/// `str::parse::<usize>`, written out (see `spec_parse_usize`).
pub fn parse_usize(s: &str) -> (r: Result<usize, ParseIntError>)
    ensures
        match spec_parse_usize(s@) {
            Ok(v) => r == Ok::<usize, ParseIntError>(v as usize) && 0 <= v <= usize::MAX,
            Err(e) => r == Err::<usize, ParseIntError>(e),
        },
{
    proof {
        lemma_unsigned_range(s@);
        lemma_unsigned_range(s@.drop_first());
    }
    let cs = chars_of(s);
    if cs.len() == 0 {
        return Err(ParseIntError::Empty);
    }
    if cs[0] == '+' && cs.len() == 1 {
        return Err(ParseIntError::InvalidDigit);
    }
    let start: usize = if cs[0] == '+' { 1 } else { 0 };
    let ghost ds = cs@.skip(start as int);
    assert(start == 1 ==> ds =~= s@.drop_first());
    assert(start == 0 ==> ds =~= s@);
    let mut acc: usize = 0;
    let mut i: usize = start;
    while i < cs.len()
        invariant
            start <= i <= cs@.len(),
            cs@ == s@,
            s@.len() >= 1,
            start <= 1,
            (s@[0] == '+') == (start == 1),
            !(s@[0] == '+' && s@.len() == 1),
            ds == cs@.skip(start as int),
            ds == if start == 1 { s@.drop_first() } else { s@ },
            scan_unsigned(ds.take(i - start)) == Ok::<int, ParseIntError>(acc as int),
        decreases cs@.len() - i,
    {
        let c = cs[i];
        assert(ds.take(i + 1 - start).drop_last() == ds.take(i - start));
        assert(ds.take(i + 1 - start).last() == c);
        if !('0' <= c && c <= '9') {
            proof { lemma_unsigned_error_extends(ds, (i + 1 - start) as int); }
            return Err(ParseIntError::InvalidDigit);
        }
        let dv: usize = (c as u32 - '0' as u32) as usize;
        assert(dv == digit_value(c));
        let next = match acc.checked_mul(10) {
            Some(m) => m.checked_add(dv),
            None => None,
        };
        match next {
            Some(n) => { acc = n; },
            None => {
                proof { lemma_unsigned_error_extends(ds, (i + 1 - start) as int); }
                return Err(ParseIntError::PosOverflow);
            },
        }
        i += 1;
    }
    assert(ds.take(cs@.len() - start) == ds);
    Ok(acc)
}

} // verus!
