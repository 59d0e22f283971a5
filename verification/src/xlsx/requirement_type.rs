//! Conditions that a cell of a purchase row must meet for the row to count.
use vstd::prelude::*;
use crate::and_or::{to_uppercase, upper_text};
use crate::text::{contains_text_in, parse_i64, spec_parse_i64, starts_with_text, text_contains, text_starts_with};

verus! {

/// A condition on the text of a cell; `T` is the type of the numbers that
/// the numeric conditions compare with.
#[derive(Clone)]
pub enum RequirementType<'a, T> {
    StringExactMatch(&'a str),
    /// A spreadsheet serial date within these bounds, both included.
    DateRangeMatch(i64, i64),
    IsValueGreaterThan(T),
    IsValueLessThan(T),
    StartsWith(&'a str),
    IsOneOfItems(Vec<&'a str>),
    StringExactMatchIgnoreCase(&'a str),
    StartsWithIgnoreCase(&'a str),
    ContainsIgnoreCase(&'a str),
    Contains(&'a str),
}

impl<'a, T> View for RequirementType<'a, T> {
    type V = RequirementType<'a, T>;

    open spec fn view(&self) -> RequirementType<'a, T> {
        *self
    }
}

/// What a condition makes of a cell.
#[derive(Clone, Debug, PartialEq, Eq)]
pub enum RequirementCheck {
    /// The cell meets the condition.
    Keep,
    /// The row does not count.
    Ignore,
    /// The row is dropped with this error message.
    DropWithError(String),
    /// The condition compares numbers (`IsValueGreaterThan`,
    /// `IsValueLessThan`); its outcome is decided by that comparison.
    CompareAsNumber,
}

/// The spec-level outcome of a condition, with the message of an error.
pub enum CheckOutcome {
    Keep,
    Ignore,
    DropWithError(Seq<char>),
    CompareAsNumber,
}

pub open spec fn check_view(c: RequirementCheck) -> CheckOutcome {
    match c {
        RequirementCheck::Keep => CheckOutcome::Keep,
        RequirementCheck::Ignore => CheckOutcome::Ignore,
        RequirementCheck::DropWithError(m) => CheckOutcome::DropWithError(m@),
        RequirementCheck::CompareAsNumber => CheckOutcome::CompareAsNumber,
    }
}

pub open spec fn keep_if(b: bool) -> CheckOutcome {
    if b { CheckOutcome::Keep } else { CheckOutcome::Ignore }
}

/// What the condition makes of the cell text `value` in column `column`.
/// A date range reads the text as an integer; when it does not read, the
/// row is dropped with the reading error and the column's name.  Case is
/// ignored by comparing upper-case forms.
pub open spec fn requirement_outcome<'a, T>(req: RequirementType<'a, T>, value: Seq<char>, column: Seq<char>) -> CheckOutcome {
    match req {
        RequirementType::StringExactMatch(m) => keep_if(m@ == value),
        RequirementType::StringExactMatchIgnoreCase(m) => keep_if(upper_text(m@) == upper_text(value)),
        RequirementType::DateRangeMatch(start, end) => match spec_parse_i64(value) {
            Ok(v) => keep_if(start <= v && v <= end),
            Err(e) => CheckOutcome::DropWithError(e.spec_message() + " for column "@ + column),
        },
        RequirementType::IsValueGreaterThan(_) => CheckOutcome::CompareAsNumber,
        RequirementType::IsValueLessThan(_) => CheckOutcome::CompareAsNumber,
        RequirementType::StartsWithIgnoreCase(p) => keep_if(text_starts_with(upper_text(value), upper_text(p@))),
        RequirementType::StartsWith(p) => keep_if(text_starts_with(value, p@)),
        RequirementType::IsOneOfItems(items) => keep_if(items@.map_values(|s: &str| s@).contains(value)),
        RequirementType::Contains(d) => keep_if(text_contains(value, d@)),
        RequirementType::ContainsIgnoreCase(d) => keep_if(text_contains(upper_text(value), upper_text(d@))),
    }
}

pub(crate) fn str_eq(a: &str, b: &str) -> (r: bool)
    ensures
        r == (a@ == b@),
{
    let x = crate::text::chars_of(a);
    let y = crate::text::chars_of(b);
    match crate::keyed::compare_text(x.as_slice(), y.as_slice()) {
        crate::keyed::TextOrder::Equal => true,
        _ => false,
    }
}

fn keep_when(b: bool) -> (r: RequirementCheck)
    ensures
        check_view(r) == keep_if(b),
{
    if b { RequirementCheck::Keep } else { RequirementCheck::Ignore }
}

/// What the condition makes of the cell text `value` in column `column`
/// (see `requirement_outcome`).
pub fn test_requirement<'a, T>(req: &RequirementType<'a, T>, value: &str, column: &str) -> (r: RequirementCheck)
    ensures
        check_view(r) == requirement_outcome(*req, value@, column@),
{
    match req {
        RequirementType::StringExactMatch(match_this) => keep_when(str_eq(match_this, value)),
        RequirementType::StringExactMatchIgnoreCase(match_this) => {
            let a = to_uppercase(match_this);
            let b = to_uppercase(value);
            keep_when(str_eq(a.as_str(), b.as_str()))
        },
        RequirementType::DateRangeMatch(start, end) => match parse_i64(value) {
            Ok(parsed_date_xlsx) => keep_when(parsed_date_xlsx >= *start && parsed_date_xlsx <= *end),
            Err(er) => {
                let mut msg = String::from_str(er.message());
                msg.append(" for column ");
                msg.append(column);
                RequirementCheck::DropWithError(msg)
            },
        },
        RequirementType::IsValueGreaterThan(_) => RequirementCheck::CompareAsNumber,
        RequirementType::IsValueLessThan(_) => RequirementCheck::CompareAsNumber,
        RequirementType::StartsWithIgnoreCase(starts_with) => {
            let chk = to_uppercase(starts_with);
            let v = to_uppercase(value);
            keep_when(starts_with_text(v.as_str(), chk.as_str()))
        },
        RequirementType::StartsWith(starts_with) => keep_when(starts_with_text(value, starts_with)),
        RequirementType::IsOneOfItems(items) => {
            let mut found = false;
            let mut i: usize = 0;
            while i < items.len()
                invariant
                    i <= items@.len(),
                    found == exists|j: int| 0 <= j < i && (#[trigger] items@[j])@ == value@,
                decreases items@.len() - i,
            {
                if str_eq(items[i], value) {
                    found = true;
                }
                i += 1;
            }
            proof {
                let l = items@.map_values(|s: &str| s@);
                if found {
                    let j = choose|j: int| 0 <= j < items@.len() && (#[trigger] items@[j])@ == value@;
                    assert(l[j] == value@);
                } else {
                    assert forall|j: int| 0 <= j < l.len() implies l[j] != value@ by {
                        assert(l[j] == items@[j]@);
                    }
                }
            }
            keep_when(found)
        },
        RequirementType::Contains(data) => keep_when(contains_text_in(value, data)),
        RequirementType::ContainsIgnoreCase(data) => {
            let mt = to_uppercase(value);
            let d = to_uppercase(data);
            keep_when(contains_text_in(mt.as_str(), d.as_str()))
        },
    }
}

} // verus!
