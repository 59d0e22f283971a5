//! How the product groups of a promotion part combine, and how that is
//! written in promotion files.
use vstd::prelude::*;
use crate::text::{chars_of, i64_to_text, int_text, parse_i64, push_char, spec_parse_i64, string_from_chars};

verus! {

/// How the product groups (`TypeProd`s) of a promotion part combine:
/// all of them (`And`), any of them summed (`Or`), a number of purchases
/// from any of them (`Any(n)`), or a part made of a single group (`Single`,
/// written `None` in promotion files).
#[derive(Clone, Copy, Debug, PartialEq, Eq, Structural)]
pub enum AndOrType {
    And,
    Or,
    Any(i64),
    Single,
}

/// The text of a kind: `And`, `Or`, `Any(n)` or `None`.
pub open spec fn and_or_text(t: AndOrType) -> Seq<char> {
    match t {
        AndOrType::And => "And"@,
        AndOrType::Or => "Or"@,
        AndOrType::Any(n) => "Any("@ + int_text(n as int) + ")"@,
        AndOrType::Single => "None"@,
    }
}

impl AndOrType {
    /// The text of the kind (see `and_or_text`).
    pub fn to_text(&self) -> (s: String)
        ensures
            s@ == and_or_text(*self),
    {
        match self {
            AndOrType::And => String::from_str("And"),
            AndOrType::Or => String::from_str("Or"),
            AndOrType::Any(many) => {
                let mut s = String::from_str("Any(");
                let n = i64_to_text(*many);
                s.append(n.as_str());
                s.append(")");
                s
            },
            AndOrType::Single => String::from_str("None"),
        }
    }
}

/// The characters that Rust's `char::is_whitespace` accepts: those with the
/// Unicode `White_Space` property.
pub open spec fn is_white_space(c: char) -> bool {
    let u = c as u32;
    (0x9 <= u <= 0xd) || u == 0x20 || u == 0x85 || u == 0xa0 || u == 0x1680 || (0x2000 <= u <= 0x200a)
        || u == 0x2028 || u == 0x2029 || u == 0x202f || u == 0x205f || u == 0x3000
}

fn white_space(c: char) -> (b: bool)
    ensures
        b == is_white_space(c),
{
    let u = c as u32;
    (0x9 <= u && u <= 0xd) || u == 0x20 || u == 0x85 || u == 0xa0 || u == 0x1680 || (0x2000 <= u && u <= 0x200a)
        || u == 0x2028 || u == 0x2029 || u == 0x202f || u == 0x205f || u == 0x3000
}

/// The number of white space characters at the start of `s`.
pub open spec fn lead_len(s: Seq<char>) -> int
    decreases s.len(),
{
    if s.len() > 0 && is_white_space(s[0]) { 1 + lead_len(s.drop_first()) } else { 0 }
}

/// The number of white space characters at the end of `s`.
pub open spec fn trail_len(s: Seq<char>) -> int
    decreases s.len(),
{
    if s.len() > 0 && is_white_space(s.last()) { 1 + trail_len(s.drop_last()) } else { 0 }
}

/// `s` without its leading and trailing white space, as `str::trim` gives it.
pub open spec fn trimmed(s: Seq<char>) -> Seq<char> {
    let a = lead_len(s);
    if a == s.len() { Seq::empty() } else { s.subrange(a, s.len() - trail_len(s)) }
}

proof fn lemma_lead_len(s: Seq<char>, i: int)
    requires
        0 <= i <= s.len(),
        forall|j: int| 0 <= j < i ==> is_white_space(#[trigger] s[j]),
    ensures
        i == s.len() || !is_white_space(s[i]) ==> lead_len(s) == i,
        0 <= lead_len(s) <= s.len(),
        lead_len(s) >= i,
    decreases i,
{
    if i > 0 {
        assert forall|j: int| 0 <= j < i - 1 implies is_white_space(#[trigger] s.drop_first()[j]) by {
            assert(s.drop_first()[j] == s[j + 1]);
        }
        lemma_lead_len(s.drop_first(), i - 1);
    } else {
        lemma_lead_bounds(s);
    }
}

proof fn lemma_lead_bounds(s: Seq<char>)
    ensures
        0 <= lead_len(s) <= s.len(),
    decreases s.len(),
{
    if s.len() > 0 {
        lemma_lead_bounds(s.drop_first());
    }
}

proof fn lemma_trail_len(s: Seq<char>, i: int)
    requires
        0 <= i <= s.len(),
        forall|j: int| s.len() - i <= j < s.len() ==> is_white_space(#[trigger] s[j]),
    ensures
        i == s.len() || !is_white_space(s[s.len() - 1 - i]) ==> trail_len(s) == i,
        0 <= trail_len(s) <= s.len(),
    decreases i,
{
    if i > 0 {
        assert forall|j: int| s.drop_last().len() - (i - 1) <= j < s.drop_last().len() implies is_white_space(#[trigger] s.drop_last()[j]) by {
            assert(s.drop_last()[j] == s[j]);
        }
        lemma_trail_len(s.drop_last(), i - 1);
    } else {
        lemma_trail_bounds(s);
    }
}

proof fn lemma_trail_bounds(s: Seq<char>)
    ensures
        0 <= trail_len(s) <= s.len(),
    decreases s.len(),
{
    if s.len() > 0 {
        lemma_trail_bounds(s.drop_last());
    }
}

/// `s` without leading and trailing white space (`str::trim`).
pub fn trim_chars(s: &[char]) -> (r: Vec<char>)
    ensures
        r@ == trimmed(s@),
{
    let n = s.len();
    let mut a: usize = 0;
    while a < n && white_space(s[a])
        invariant
            n == s@.len(),
            a <= n,
            forall|j: int| 0 <= j < a ==> is_white_space(#[trigger] s@[j]),
        decreases n - a,
    {
        a += 1;
    }
    proof { lemma_lead_len(s@, a as int); }
    if a == n {
        return Vec::new();
    }
    let mut t: usize = 0;
    while t < n - a && white_space(s[n - 1 - t])
        invariant
            n == s@.len(),
            a < n,
            t <= n - a,
            forall|j: int| n - t <= j < n ==> is_white_space(#[trigger] s@[j]),
        decreases n - a - t,
    {
        t += 1;
    }
    proof {
        lemma_trail_len(s@, t as int);
        assert(!is_white_space(s@[a as int]));
        if t == n - a {
            assert(is_white_space(s@[a as int]));
        }
    }
    let mut r: Vec<char> = Vec::new();
    let mut i: usize = a;
    while i < n - t
        invariant
            n == s@.len(),
            a <= i <= n - t,
            r@ == s@.subrange(a as int, i as int),
        decreases n - t - i,
    {
        r.push(s[i]);
        i += 1;
        assert(r@ =~= s@.subrange(a as int, i as int));
    }
    r
}

/// The characters of `s` before its first `#`.
pub open spec fn before_pound(s: Seq<char>) -> Seq<char>
    decreases s.len(),
{
    if s.len() == 0 {
        s
    } else if s[0] == '#' {
        Seq::empty()
    } else {
        seq![s[0]] + before_pound(s.drop_first())
    }
}

/// The characters of `s` after its first `#`, if it has one.
pub open spec fn after_pound(s: Seq<char>) -> Option<Seq<char>>
    decreases s.len(),
{
    if s.len() == 0 {
        None
    } else if s[0] == '#' {
        Some(s.drop_first())
    } else {
        after_pound(s.drop_first())
    }
}

/// Splits at the first `#`: the text before it, and the text after it if it
/// occurs.
fn split_at_pound(s: &[char], start: usize) -> (r: (Vec<char>, Option<Vec<char>>))
    requires
        start <= s@.len(),
    ensures
        r.0@ == before_pound(s@.skip(start as int)),
        match r.1 {
            Some(rest) => after_pound(s@.skip(start as int)) == Some(rest@),
            None => after_pound(s@.skip(start as int)) is None,
        },
    decreases s@.len() - start,
{
    if start == s.len() {
        assert(s@.skip(start as int) =~= Seq::<char>::empty());
        return (Vec::new(), None);
    }
    let ghost t = s@.skip(start as int);
    assert(t.drop_first() =~= s@.skip(start + 1));
    if s[start] == '#' {
        let mut rest: Vec<char> = Vec::new();
        let mut i: usize = start + 1;
        while i < s.len()
            invariant
                start < i <= s@.len(),
                rest@ == s@.subrange(start + 1, i as int),
            decreases s@.len() - i,
        {
            rest.push(s[i]);
            i += 1;
            assert(rest@ =~= s@.subrange(start + 1, i as int));
        }
        assert(rest@ =~= t.drop_first());
        (Vec::new(), Some(rest))
    } else {
        let (first, rest) = split_at_pound(s, start + 1);
        let mut head: Vec<char> = Vec::new();
        head.push(s[start]);
        let mut first = first;
        head.append(&mut first);
        assert(head@ =~= seq![t[0]] + before_pound(t.drop_first()));
        (head, rest)
    }
}

/// The uppercase form of a text, as `str::to_uppercase` gives it.
pub uninterp spec fn uppercase_of(s: Seq<char>) -> Seq<char>;

/// ASCII letters `a`–`z` in upper case; every other character unchanged.
pub open spec fn ascii_upper(s: Seq<char>) -> Seq<char> {
    s.map_values(|c: char| if 'a' <= c && c <= 'z' { ((c as int) - 32) as char } else { c })
}

pub open spec fn is_ascii_text(s: Seq<char>) -> bool {
    forall|i: int| 0 <= i < s.len() ==> (#[trigger] s[i] as u32) < 128
}

/// The uppercase form of a text: spelled out for ASCII text, named for the
/// rest.
pub open spec fn upper_text(s: Seq<char>) -> Seq<char> {
    if is_ascii_text(s) { ascii_upper(s) } else { uppercase_of(s) }
}

/// Calls `str::to_uppercase`.  Claimed: the result is `uppercase_of` of the
/// input; on text made only of ASCII characters, the letters `a`–`z` become
/// `A`–`Z` and every other character stays (the Unicode case mapping of the
/// ASCII range).  What it does to other characters is left to the name.
#[verifier::external_body]
pub(crate) fn to_uppercase(s: &str) -> (r: String)
    ensures
        r@ == uppercase_of(s@),
        r@ == upper_text(s@),
{
    s.to_uppercase()
}

/// The kind named in a promotion file, or `None` for an unexpected value.
/// The text is trimmed and cut at its first `#`; the part before, in upper
/// case, must be `OR`, `AND`, `ANY` or `NONE`; for `ANY`, the text after the
/// `#` (up to a second `#`) is the count when it reads as an integer, and
/// the count is 1 otherwise.
pub open spec fn parse_and_or(s: Seq<char>) -> Option<AndOrType> {
    let t = trimmed(s);
    let word = upper_text(before_pound(t));
    let count = match after_pound(t) {
        Some(rest) => match spec_parse_i64(before_pound(rest)) {
            Ok(v) => v as i64,
            Err(_) => 1i64,
        },
        None => 1i64,
    };
    if word == "OR"@ {
        Some(AndOrType::Or)
    } else if word == "AND"@ {
        Some(AndOrType::And)
    } else if word == "ANY"@ {
        Some(AndOrType::Any(count))
    } else if word == "NONE"@ {
        Some(AndOrType::Single)
    } else {
        None
    }
}

pub(crate) fn text_eq(a: &String, b: &str) -> (r: bool)
    ensures
        r == (a@ == b@),
{
    let x = chars_of(a.as_str());
    let y = chars_of(b);
    match crate::keyed::compare_text(x.as_slice(), y.as_slice()) {
        crate::keyed::TextOrder::Equal => true,
        _ => false,
    }
}

impl AndOrType {
    /// Reads the kind from its text in a promotion file (see
    /// `parse_and_or`); `None` stands for an unexpected value.
    pub fn from_promo_text(ed_str: &str) -> (r: Option<AndOrType>)
        ensures
            r == parse_and_or(ed_str@),
    {
        let cs = chars_of(ed_str);
        let trimmed_chars = trim_chars(cs.as_slice());
        let (first, rest) = split_at_pound(trimmed_chars.as_slice(), 0);
        assert(trimmed_chars@.skip(0) == trimmed_chars@);
        let mut val: i64 = 1;
        match rest {
            Some(rest) => {
                let (second, _) = split_at_pound(rest.as_slice(), 0);
                assert(rest@.skip(0) == rest@);
                let second_text = string_from_chars(second.as_slice());
                match parse_i64(second_text.as_str()) {
                    Ok(good_val) => {
                        val = good_val;
                    },
                    Err(_) => {},
                }
            },
            None => {},
        }
        let first_text = string_from_chars(first.as_slice());
        let word = to_uppercase(first_text.as_str());
        if text_eq(&word, "OR") {
            Some(AndOrType::Or)
        } else if text_eq(&word, "AND") {
            Some(AndOrType::And)
        } else if text_eq(&word, "ANY") {
            Some(AndOrType::Any(val))
        } else if text_eq(&word, "NONE") {
            Some(AndOrType::Single)
        } else {
            None
        }
    }
}


/// Reading back the text of a kind gives the kind, for `And`, `Or` and
/// `None`.  (The text `Any(n)` of a count does not read back.)
pub proof fn lemma_and_or_text_reads_back(t: AndOrType)
    requires
        !(t is Any),
    ensures
        parse_and_or(and_or_text(t)) == Some(t),
{
    reveal_strlit("And");
    reveal_strlit("Or");
    reveal_strlit("None");
    reveal_strlit("AND");
    reveal_strlit("OR");
    reveal_strlit("ANY");
    reveal_strlit("NONE");
    let s = and_or_text(t);
    assert(!is_white_space(s[0]));
    assert(!is_white_space(s.last()));
    lemma_lead_len(s, 0);
    lemma_trail_len(s, 0);
    assert(trimmed(s) =~= s);
    lemma_no_pound(s);
    assert(is_ascii_text(s));
    assert(ascii_upper(s) =~= match t {
        AndOrType::And => "AND"@,
        AndOrType::Or => "OR"@,
        _ => "NONE"@,
    });
}

proof fn lemma_no_pound(s: Seq<char>)
    requires
        forall|i: int| 0 <= i < s.len() ==> #[trigger] s[i] != '#',
    ensures
        before_pound(s) == s,
        after_pound(s) is None,
    decreases s.len(),
{
    if s.len() > 0 {
        assert forall|i: int| 0 <= i < s.drop_first().len() implies #[trigger] s.drop_first()[i] != '#' by {
            assert(s.drop_first()[i] == s[i + 1]);
        }
        lemma_no_pound(s.drop_first());
        assert(s =~= seq![s[0]] + s.drop_first());
    }
}

} // verus!
