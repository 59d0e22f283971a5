//! Calendar dates of promotions and purchases, and their spreadsheet serial
//! numbers (days counted from 1899-12-30).
use vstd::prelude::*;
use chrono::Datelike;
use crate::text::{i64_to_text, int_text, nat_text, u64_to_text};

verus! {

/// A calendar date of the proleptic Gregorian calendar.
#[derive(Clone, Copy, Debug, PartialEq, Eq, Structural)]
pub struct PromoDateNative {
    pub year: i32,
    pub month: u32,
    pub day: u32,
}

pub open spec fn is_leap_year(y: int) -> bool {
    (y % 4 == 0 && y % 100 != 0) || y % 400 == 0
}

pub open spec fn days_in_month(y: int, m: int) -> int {
    if m == 2 {
        if is_leap_year(y) { 29 } else { 28 }
    } else if m == 4 || m == 6 || m == 9 || m == 11 {
        30
    } else {
        31
    }
}

/// The date exists, within the years that chrono's `NaiveDate` holds.
pub open spec fn valid_date(d: PromoDateNative) -> bool {
    &&& -262143 <= d.year <= 262142
    &&& 1 <= d.month <= 12
    &&& 1 <= d.day <= days_in_month(d.year as int, d.month as int)
}

/// The serial number of the first date chrono holds (-262143-01-01).
pub const SERIAL_MIN: i64 = -96439723;

/// The serial number of the last date chrono holds (262142-12-31).
pub const SERIAL_MAX: i64 = 95051805;

/// The number of days from 1970-01-01 to the date `y`-`m`-`d` of the
/// proleptic Gregorian calendar (years counted from March, in eras of 400
/// years).
pub open spec fn days_from_civil(y: int, m: int, d: int) -> int {
    let y1 = if m <= 2 { y - 1 } else { y };
    let era = y1 / 400;
    let yoe = y1 - era * 400;
    let mp = if m > 2 { m - 3 } else { m + 9 };
    let doy = (153 * mp + 2) / 5 + d - 1;
    let doe = yoe * 365 + yoe / 4 - yoe / 100 + doy;
    era * 146097 + doe - 719468
}

/// The date `z` days after 1970-01-01 (the inverse of `days_from_civil`).
pub open spec fn civil_from_days(z: int) -> PromoDateNative {
    let z1 = z + 719468;
    let era = z1 / 146097;
    let doe = z1 - era * 146097;
    let yoe = (doe - doe / 1460 + doe / 36524 - doe / 146096) / 365;
    let doy = doe - (365 * yoe + yoe / 4 - yoe / 100);
    let mp = (5 * doy + 2) / 153;
    let d = doy - (153 * mp + 2) / 5 + 1;
    let m = if mp < 10 { mp + 3 } else { mp - 9 };
    let y = yoe + era * 400 + if m <= 2 { 1int } else { 0int };
    PromoDateNative { year: y as i32, month: m as u32, day: d as u32 }
}

/// The days from 1899-12-30 (day 0 of spreadsheets) to 1970-01-01.
pub open spec fn excel_epoch_offset() -> int {
    25569
}

/// The date `n` days after 1899-12-30.
pub open spec fn excel_date(n: int) -> PromoDateNative {
    civil_from_days(n - excel_epoch_offset())
}

/// The number of days from 1899-12-30 to `d`.
pub open spec fn excel_serial(d: PromoDateNative) -> int {
    days_from_civil(d.year as int, d.month as int, d.day as int) + excel_epoch_offset()
}

/// The date that chrono's `NaiveDate::parse_from_str` reads from `s` with
/// format `fmt`, if any.
pub uninterp spec fn parsed_date(s: Seq<char>, fmt: Seq<char>) -> Option<PromoDateNative>;

/// The date part of what chrono's `NaiveDateTime::parse_from_str` reads
/// from `s` with format `fmt`, if it reads anything.
pub uninterp spec fn parsed_date_time(s: Seq<char>, fmt: Seq<char>) -> Option<PromoDateNative>;

/// Calls `NaiveDate + TimeDelta` (from 1899-12-30, `n` days).  Claimed: the
/// result is `excel_date(n)`, the proleptic Gregorian date `n` days on.
/// Inside chrono's range of dates the addition does not panic.
#[verifier::external_body]
fn date_after_excel_epoch(n: i64) -> (d: PromoDateNative)
    requires
        SERIAL_MIN <= n <= SERIAL_MAX,
    ensures
        d == excel_date(n as int),
{
    let date = chrono::NaiveDate::from_ymd_opt(1899, 12, 30).unwrap() + chrono::TimeDelta::days(n);
    PromoDateNative { year: date.year(), month: date.month(), day: date.day() }
}

/// Calls `NaiveDate - NaiveDate` (from 1899-12-30) and takes the whole days.
/// Claimed: the result is `excel_serial(d)`, the number of days of the
/// proleptic Gregorian calendar.  A valid date is one chrono holds, so
/// `from_ymd_opt` does not fail.
#[verifier::external_body]
fn days_since_excel_epoch(d: PromoDateNative) -> (n: i64)
    requires
        valid_date(d),
    ensures
        n == excel_serial(d),
{
    let date = chrono::NaiveDate::from_ymd_opt(d.year, d.month, d.day).unwrap();
    (date - chrono::NaiveDate::from_ymd_opt(1899, 12, 30).unwrap()).num_days()
}

/// Calls `NaiveDate::parse_from_str`.  Claimed: the result is
/// `parsed_date(s, fmt)`, and a date it reads is valid.  Besides, what
/// chrono's parser does with the items of these formats: `%m` and `%d` read
/// one or two digits, `%Y` reads an optional sign and then up to four digits
/// (any number of digits after a sign), and `/` and `-` must stand as they
/// are.  So `%m/%d/%Y` reads back the text `mdy_text(d)` that `format`
/// writes; `%m-%d-%Y` reads back `date_text(d)` when the year has at most
/// four digits; and `%m/%d/%Y` reads nothing from `date_text(d)`, whose month
/// is followed by `-`.  Which other texts a format accepts is left to the
/// name.
#[verifier::external_body]
fn parse_date(s: &str, fmt: &str) -> (r: Option<PromoDateNative>)
    ensures
        r == parsed_date(s@, fmt@),
        r matches Some(d) ==> valid_date(d),
        forall|d: PromoDateNative| #![trigger mdy_text(d)]
            valid_date(d) && fmt@ == "%m/%d/%Y"@ && s@ == mdy_text(d) ==> r == Some(d),
        forall|d: PromoDateNative| #![trigger date_text(d)]
            valid_date(d) && d.year <= 9999 && fmt@ == "%m-%d-%Y"@ && s@ == date_text(d) ==> r == Some(d),
        forall|d: PromoDateNative| #![trigger date_text(d)]
            valid_date(d) && fmt@ == "%m/%d/%Y"@ && s@ == date_text(d) ==> r is None,
{
    match chrono::NaiveDate::parse_from_str(s, fmt) {
        Ok(date) => Some(PromoDateNative { year: date.year(), month: date.month(), day: date.day() }),
        Err(_) => None,
    }
}

/// Calls `NaiveDateTime::parse_from_str` and keeps the date part.  Claimed:
/// the result is `parsed_date_time(s, fmt)`, and a date it reads is valid.
#[verifier::external_body]
pub(crate) fn parse_date_time(s: &str, fmt: &str) -> (r: Option<PromoDateNative>)
    ensures
        r == parsed_date_time(s@, fmt@),
        r matches Some(d) ==> valid_date(d),
{
    match chrono::NaiveDateTime::parse_from_str(s, fmt) {
        Ok(dt) => Some(PromoDateNative { year: dt.date().year(), month: dt.date().month(), day: dt.date().day() }),
        Err(_) => None,
    }
}

/// `n` in decimal, with zeros in front up to `width` digits.
pub open spec fn padded(n: nat, width: nat) -> Seq<char>
    decreases width,
{
    if nat_text(n).len() >= width || width == 0 {
        nat_text(n)
    } else {
        seq!['0'] + padded(n, (width - 1) as nat)
    }
}

/// chrono's `%Y`: four digits with zeros in front for the years 0 to 9999,
/// else a sign before at least four digits.
pub open spec fn year_text(y: int) -> Seq<char> {
    if 0 <= y <= 9999 {
        padded(y as nat, 4)
    } else if y < 0 {
        seq!['-'] + padded((-y) as nat, 4)
    } else {
        seq!['+'] + padded(y as nat, 4)
    }
}

/// chrono's `%m/%d/%Y`.
pub open spec fn mdy_text(d: PromoDateNative) -> Seq<char> {
    padded(d.month as nat, 2) + "/"@ + padded(d.day as nat, 2) + "/"@ + year_text(d.year as int)
}

/// chrono's `%Y-%m-%d`.
pub open spec fn ymd_text(d: PromoDateNative) -> Seq<char> {
    year_text(d.year as int) + "-"@ + padded(d.month as nat, 2) + "-"@ + padded(d.day as nat, 2)
}

/// Calls `NaiveDate::format` and writes the result out.  Claimed: for the
/// two formats used here the text is as `mdy_text` and `ymd_text` state,
/// which is what chrono's `%m`, `%d` (two digits, zero in front) and `%Y`
/// (see `year_text`) write.
#[verifier::external_body]
pub(crate) fn format_date(d: PromoDateNative, fmt: &str) -> (r: String)
    requires
        valid_date(d),
        fmt@ == "%m/%d/%Y"@ || fmt@ == "%Y-%m-%d"@,
    ensures
        fmt@ == "%m/%d/%Y"@ ==> r@ == mdy_text(d),
        fmt@ == "%Y-%m-%d"@ ==> r@ == ymd_text(d),
{
    chrono::NaiveDate::from_ymd_opt(d.year, d.month, d.day).unwrap().format(fmt).to_string()
}

/// A text that does not read as a date in the format asked for.
#[derive(Clone, Copy, Debug, PartialEq, Eq, Structural)]
pub struct DateParseError;

/// The date `input` days after 1899-12-30 (a spreadsheet serial number).
pub fn convert_to_date(input: i64) -> (d: PromoDateNative)
    requires
        SERIAL_MIN <= input <= SERIAL_MAX,
    ensures
        d == excel_date(input as int),
        valid_date(d),
        excel_serial(d) == input,
{
    proof { lemma_excel_date(input as int); }
    date_after_excel_epoch(input)
}

/// The spreadsheet serial number of a date in `%m/%d/%Y`, in decimal.
pub fn convert_from_date_to_excel_format_string(date: &str) -> (r: Result<String, DateParseError>)
    ensures
        match parsed_date(date@, "%m/%d/%Y"@) {
            Some(d) => r matches Ok(s) && s@ == int_text(excel_serial(d)),
            None => r is Err,
        },
        forall|d: PromoDateNative| #![trigger mdy_text(d)]
            valid_date(d) && date@ == mdy_text(d) ==> (r matches Ok(s) && s@ == int_text(excel_serial(d))),
{
    match parse_date(date, "%m/%d/%Y") {
        Some(d) => {
            proof { lemma_excel_serial(d); }
            Ok(i64_to_text(days_since_excel_epoch(d)))
        },
        None => Err(DateParseError),
    }
}

/// The spreadsheet serial number of a date in `%m/%d/%Y`, in decimal.
pub fn convert_from_date_string_to_excel_format_string(date: String) -> (r: Result<String, DateParseError>)
    ensures
        match parsed_date(date@, "%m/%d/%Y"@) {
            Some(d) => r matches Ok(s) && s@ == int_text(excel_serial(d)),
            None => r is Err,
        },
        forall|d: PromoDateNative| #![trigger mdy_text(d)]
            valid_date(d) && date@ == mdy_text(d) ==> (r matches Ok(s) && s@ == int_text(excel_serial(d))),
{
    convert_from_date_to_excel_format_string(date.as_str())
}

/// The spreadsheet serial number of a date in `%m/%d/%Y`.
pub fn convert_from_date_to_excel_format(date: &str) -> (r: Result<i64, DateParseError>)
    ensures
        match parsed_date(date@, "%m/%d/%Y"@) {
            Some(d) => r == Ok::<i64, DateParseError>(excel_serial(d) as i64),
            None => r is Err,
        },
        forall|d: PromoDateNative| #![trigger mdy_text(d)]
            valid_date(d) && date@ == mdy_text(d) ==> r == Ok::<i64, DateParseError>(excel_serial(d) as i64),
{
    match parse_date(date, "%m/%d/%Y") {
        Some(d) => {
            proof { lemma_excel_serial(d); }
            Ok(days_since_excel_epoch(d))
        },
        None => Err(DateParseError),
    }
}

/// The spreadsheet serial number of a date in `%m-%d-%Y`, the way
/// promotion dates are shown.
pub fn convert_from_promo_date_to_excel_format(date: String) -> (r: Result<i64, DateParseError>)
    ensures
        match parsed_date(date@, "%m-%d-%Y"@) {
            Some(d) => r == Ok::<i64, DateParseError>(excel_serial(d) as i64),
            None => r is Err,
        },
        forall|d: PromoDateNative| #![trigger date_text(d)]
            valid_date(d) && d.year <= 9999 && date@ == date_text(d) ==> r == Ok::<i64, DateParseError>(excel_serial(d) as i64),
{
    match parse_date(date.as_str(), "%m-%d-%Y") {
        Some(d) => {
            proof { lemma_excel_serial(d); }
            Ok(days_since_excel_epoch(d))
        },
        None => Err(DateParseError),
    }
}

/// A spreadsheet serial number written as `%m/%d/%Y`.
pub fn convert_from_xlsx_date_to_formatted_string(xlsx_date: i64) -> (s: String)
    requires
        SERIAL_MIN <= xlsx_date <= SERIAL_MAX,
    ensures
        s@ == mdy_text(excel_date(xlsx_date as int)),
        valid_date(excel_date(xlsx_date as int)),
        excel_serial(excel_date(xlsx_date as int)) == xlsx_date,
{
    proof { lemma_excel_date(xlsx_date as int); }
    let d = date_after_excel_epoch(xlsx_date);
    format_date(d, "%m/%d/%Y")
}

/// The short names of the months, as the report writes them.
pub open spec fn month_name(m: int) -> Seq<char> {
    if m == 1 { "Jan"@ } else if m == 2 { "Feb"@ } else if m == 3 { "Mar"@ } else if m == 4 { "Apr"@ }
    else if m == 5 { "May"@ } else if m == 6 { "Jun"@ } else if m == 7 { "Jul"@ } else if m == 8 { "Aug"@ }
    else if m == 9 { "Sept"@ } else if m == 10 { "Oct"@ } else if m == 11 { "Nov"@ } else if m == 12 { "Dec"@ }
    else { "Jan"@ }
}

/// A date shown as `m-d-y`: month, day and year in decimal, without zeros
/// in front.
pub open spec fn date_text(d: PromoDateNative) -> Seq<char> {
    nat_text(d.month as nat) + "-"@ + nat_text(d.day as nat) + "-"@ + int_text(d.year as int)
}

impl Default for PromoDateNative {
    /// 2000-01-01.
    fn default() -> (d: PromoDateNative)
        ensures
            d == (PromoDateNative { year: 2000, month: 1, day: 1 }),
            valid_date(d),
    {
        PromoDateNative { year: 2000, month: 1, day: 1 }
    }
}

impl PromoDateNative {

    /// The month's short name and the year, as `"Sept 2020"`.
    pub fn get_month_year(&self) -> (s: String)
        ensures
            s@ == month_name(self.month as int) + " "@ + int_text(self.year as int),
    {
        let mut s = String::new();
        let name = if self.month == 1 {
            "Jan"
        } else if self.month == 2 {
            "Feb"
        } else if self.month == 3 {
            "Mar"
        } else if self.month == 4 {
            "Apr"
        } else if self.month == 5 {
            "May"
        } else if self.month == 6 {
            "Jun"
        } else if self.month == 7 {
            "Jul"
        } else if self.month == 8 {
            "Aug"
        } else if self.month == 9 {
            "Sept"
        } else if self.month == 10 {
            "Oct"
        } else if self.month == 11 {
            "Nov"
        } else if self.month == 12 {
            "Dec"
        } else {
            "Jan"
        };
        s.append(name);
        s.append(" ");
        let y = i64_to_text(self.year as i64);
        s.append(y.as_str());
        s
    }

    /// The date shown as `m-d-y` (see `date_text`).
    pub fn to_text(&self) -> (s: String)
        ensures
            s@ == date_text(*self),
    {
        let mut s = u64_to_text(self.month as u64);
        s.append("-");
        let d = u64_to_text(self.day as u64);
        s.append(d.as_str());
        s.append("-");
        let y = i64_to_text(self.year as i64);
        s.append(y.as_str());
        s
    }

    /// Whether the date exists (see `valid_date`).
    pub fn is_valid(&self) -> (b: bool)
        ensures
            b == valid_date(*self),
    {
        let leap = (self.year % 4 == 0 && self.year % 100 != 0) || self.year % 400 == 0;
        let month_days: u32 = if self.month == 2 {
            if leap { 29 } else { 28 }
        } else if self.month == 4 || self.month == 6 || self.month == 9 || self.month == 11 {
            30
        } else {
            31
        };
        -262143 <= self.year && self.year <= 262142 && 1 <= self.month && self.month <= 12 && 1 <= self.day
            && self.day <= month_days
    }

    /// The date written as `%m/%d/%Y`, as promotion files are written.
    pub fn to_mdy_text(&self) -> (s: String)
        requires
            valid_date(*self),
        ensures
            s@ == mdy_text(*self),
    {
        format_date(*self, "%m/%d/%Y")
    }

    /// The date read from a promotion file: `%m/%d/%Y` first, then
    /// `%m-%d-%Y`; `None` when neither reads.
    pub fn from_text(value: &str) -> (r: Option<PromoDateNative>)
        ensures
            r == match parsed_date(value@, "%m/%d/%Y"@) {
                Some(d) => Some(d),
                None => parsed_date(value@, "%m-%d-%Y"@),
            },
            r matches Some(d) ==> valid_date(d),
            forall|d: PromoDateNative| #![trigger mdy_text(d)] valid_date(d) && value@ == mdy_text(d) ==> r == Some(d),
            forall|d: PromoDateNative| #![trigger date_text(d)]
                valid_date(d) && d.year <= 9999 && value@ == date_text(d) ==> r == Some(d),
    {
        match parse_date(value, "%m/%d/%Y") {
            Some(d) => Some(d),
            None => parse_date(value, "%m-%d-%Y"),
        }
    }
}

/// The date that a number in a promotion file stands for: `days` days
/// after 1899-12-31, read back from its `m-d-y` text (see `from_text`).
pub fn date_from_number(days: i64) -> (r: Option<PromoDateNative>)
    requires
        SERIAL_MIN <= days + 1 <= SERIAL_MAX,
    ensures
        r == match parsed_date(date_text(excel_date(days + 1)), "%m/%d/%Y"@) {
            Some(d) => Some(d),
            None => parsed_date(date_text(excel_date(days + 1)), "%m-%d-%Y"@),
        },
{
    proof { lemma_excel_date(days + 1); }
    let date = date_after_excel_epoch(days + 1);
    let text = date.to_text();
    PromoDateNative::from_text(text.as_str())
}

/// The spreadsheet serial numbers of the first and last day of a
/// promotion, read back from their `m-d-y` texts.
pub fn promo_date_range(start: &PromoDateNative, end: &PromoDateNative) -> (r: Result<(i64, i64), DateParseError>)
    ensures
        match (parsed_date(date_text(*start), "%m-%d-%Y"@), parsed_date(date_text(*end), "%m-%d-%Y"@)) {
            (Some(a), Some(b)) => r == Ok::<(i64, i64), DateParseError>((excel_serial(a) as i64, excel_serial(b) as i64)),
            _ => r is Err,
        },
        valid_date(*start) && start.year <= 9999 && valid_date(*end) && end.year <= 9999
            ==> r == Ok::<(i64, i64), DateParseError>((excel_serial(*start) as i64, excel_serial(*end) as i64)),
{
    let a = convert_from_promo_date_to_excel_format(start.to_text());
    let b = convert_from_promo_date_to_excel_format(end.to_text());
    match (a, b) {
        (Ok(x), Ok(y)) => Ok((x, y)),
        _ => Err(DateParseError),
    }
}

proof fn lemma_era_year_bv(doe: u32)
    by (bit_vector)
    requires
        doe <= 146096u32,
    ensures
        (doe - doe / 1460 + doe / 36524 - doe / 146096) / 365 <= 399,
        365 * ((doe - doe / 1460 + doe / 36524 - doe / 146096) / 365)
            + ((doe - doe / 1460 + doe / 36524 - doe / 146096) / 365) / 4
            - ((doe - doe / 1460 + doe / 36524 - doe / 146096) / 365) / 100 <= doe,
        doe - (365 * ((doe - doe / 1460 + doe / 36524 - doe / 146096) / 365)
            + ((doe - doe / 1460 + doe / 36524 - doe / 146096) / 365) / 4
            - ((doe - doe / 1460 + doe / 36524 - doe / 146096) / 365) / 100) <= 365,
        doe - (365 * ((doe - doe / 1460 + doe / 36524 - doe / 146096) / 365)
            + ((doe - doe / 1460 + doe / 36524 - doe / 146096) / 365) / 4
            - ((doe - doe / 1460 + doe / 36524 - doe / 146096) / 365) / 100) == 365
            ==> (((doe - doe / 1460 + doe / 36524 - doe / 146096) / 365 + 1) % 4 == 0
                && ((((doe - doe / 1460 + doe / 36524 - doe / 146096) / 365 + 1) % 100 != 0)
                    || (doe - doe / 1460 + doe / 36524 - doe / 146096) / 365 == 399)),
{
}

proof fn lemma_month_a_bv(doy: u32)
    by (bit_vector)
    requires
        doy <= 365u32,
    ensures
        (doy * 5 + 2) / 153 <= 11,
{
}

proof fn lemma_month_b_bv(doy: u32)
    by (bit_vector)
    requires
        doy <= 365u32,
    ensures
        ((doy * 5 + 2) / 153 * 153 + 2) / 5 <= doy,
        doy - ((doy * 5 + 2) / 153 * 153 + 2) / 5 <= 30,
{
}

proof fn lemma_month_c_bv(doy: u32)
    by (bit_vector)
    requires
        doy <= 365u32,
    ensures
        ((doy * 5 + 2) / 153 == 1 || (doy * 5 + 2) / 153 == 3 || (doy * 5 + 2) / 153 == 6 || (doy * 5 + 2) / 153 == 8)
            ==> doy - ((doy * 5 + 2) / 153 * 153 + 2) / 5 <= 29,
{
}

proof fn lemma_february_bv(doy: u32)
    by (bit_vector)
    requires
        doy <= 365u32,
    ensures
        (doy * 5 + 2) / 153 == 11 ==> (doy - ((doy * 5 + 2) / 153 * 153 + 2) / 5 <= 27 || doy == 365u32),
{
}

proof fn lemma_month_inverse_0_bv(mp: u32, d: u32)
    by (bit_vector)
    requires
        mp <= 11u32,
        1u32 <= d,
        d <= 31u32,
        (mp == 1u32 || mp == 3u32 || mp == 6u32 || mp == 8u32) ==> d <= 30u32,
        mp == 11u32 ==> d <= 29u32,
    ensures
        (((mp * 153 + 2) / 5 + d - 1) * 5 + 2) / 153 <= mp,
{
}

proof fn lemma_month_inverse_1_bv(mp: u32, d: u32)
    by (bit_vector)
    requires
        mp <= 11u32,
        1u32 <= d,
        d <= 31u32,
        (mp == 1u32 || mp == 3u32 || mp == 6u32 || mp == 8u32) ==> d <= 30u32,
        mp == 11u32 ==> d <= 29u32,
    ensures
        (((mp * 153 + 2) / 5 + d - 1) * 5 + 2) / 153 >= mp,
{
}

proof fn lemma_month_inverse_2_bv(mp: u32, d: u32)
    by (bit_vector)
    requires
        mp <= 11u32,
        1u32 <= d,
        d <= 31u32,
        (mp == 1u32 || mp == 3u32 || mp == 6u32 || mp == 8u32) ==> d <= 30u32,
        mp == 11u32 ==> d <= 29u32,
    ensures
        (mp * 153 + 2) / 5 + d - 1 <= 365,
{
}

proof fn lemma_month_inverse_3_bv(mp: u32, d: u32)
    by (bit_vector)
    requires
        mp <= 11u32,
        1u32 <= d,
        d <= 31u32,
        (mp == 1u32 || mp == 3u32 || mp == 6u32 || mp == 8u32) ==> d <= 30u32,
        mp == 11u32 ==> d <= 29u32,
    ensures
        (mp * 153 + 2) / 5 + d - 1 == 365 ==> (mp == 11u32 && d == 29u32),
{
}

proof fn lemma_era_year_inverse_0_bv(yoe: u32, doy: u32)
    by (bit_vector)
    requires
        yoe <= 399u32,
        doy <= 365u32,
        doy <= 364u32 || (yoe % 4u32 == 3u32 && (yoe % 100u32 != 99u32 || yoe == 399u32)),
    ensures
        (yoe * 365 + yoe / 4 - yoe / 100 + doy) <= 146096,
{
}

proof fn lemma_era_year_inverse_1_bv(yoe: u32, doy: u32)
    by (bit_vector)
    requires
        yoe <= 399u32,
        doy <= 365u32,
        doy <= 364u32 || (yoe % 4u32 == 3u32 && (yoe % 100u32 != 99u32 || yoe == 399u32)),
    ensures
        ((yoe * 365 + yoe / 4 - yoe / 100 + doy) - (yoe * 365 + yoe / 4 - yoe / 100 + doy) / 1460 + (yoe * 365 + yoe / 4 - yoe / 100 + doy) / 36524 - (yoe * 365 + yoe / 4 - yoe / 100 + doy) / 146096) / 365 <= yoe,
{
}

proof fn lemma_era_year_inverse_2_bv(yoe: u32, doy: u32)
    by (bit_vector)
    requires
        yoe <= 399u32,
        doy <= 365u32,
        doy <= 364u32 || (yoe % 4u32 == 3u32 && (yoe % 100u32 != 99u32 || yoe == 399u32)),
    ensures
        ((yoe * 365 + yoe / 4 - yoe / 100 + doy) - (yoe * 365 + yoe / 4 - yoe / 100 + doy) / 1460 + (yoe * 365 + yoe / 4 - yoe / 100 + doy) / 36524 - (yoe * 365 + yoe / 4 - yoe / 100 + doy) / 146096) / 365 >= yoe,
{
}

/// The date that `civil_from_days` gives for `z` is a calendar date whose
/// day count is `z` again.
proof fn lemma_civil_from_days(z: int)
    requires
        -1000000000 <= z <= 1000000000,
    ensures
        1 <= civil_from_days(z).month <= 12,
        1 <= civil_from_days(z).day <= days_in_month(civil_from_days(z).year as int, civil_from_days(z).month as int),
        days_from_civil(civil_from_days(z).year as int, civil_from_days(z).month as int, civil_from_days(z).day as int) == z,
{
    let z1 = z + 719468;
    let era = z1 / 146097;
    let doe = z1 - era * 146097;
    vstd::arithmetic::div_mod::lemma_fundamental_div_mod(z1, 146097);
    vstd::arithmetic::div_mod::lemma_mod_bound(z1, 146097);
    assert(0 <= doe < 146097);
    assert(-7000 <= era <= 7000) by (nonlinear_arith)
        requires
            z1 == era * 146097 + doe,
            0 <= doe < 146097,
            -1000000000 + 719468 <= z1 <= 1000000000 + 719468,
    ;
    let du = doe as u32;
    assert(du == doe);
    lemma_era_year_bv(du);
    let yoe = (doe - doe / 1460 + doe / 36524 - doe / 146096) / 365;
    let start = 365 * yoe + yoe / 4 - yoe / 100;
    let doy = doe - start;
    assert(0 <= yoe <= 399);
    assert(0 <= doy <= 365);
    let dy = doy as u32;
    assert(dy == doy);
    lemma_month_a_bv(dy);
    lemma_month_b_bv(dy);
    lemma_month_c_bv(dy);
    lemma_february_bv(dy);
    let mp = (5 * doy + 2) / 153;
    let ms = (153 * mp + 2) / 5;
    let d = doy - ms + 1;
    let m = if mp < 10 { mp + 3 } else { mp - 9 };
    let y = yoe + era * 400 + if m <= 2 { 1int } else { 0int };
    assert(0 <= mp <= 11);
    assert(1 <= d <= 31);
    let c = civil_from_days(z);
    assert(c.year as int == y);
    assert(c.month as int == m);
    assert(c.day as int == d);
    // back to the day count
    let y1 = yoe + era * 400;
    vstd::arithmetic::div_mod::lemma_fundamental_div_mod_converse(y1, 400, era, yoe);
    assert(days_from_civil(y, m, d) == z);
    if m == 2 {
        if d == 29 {
            assert(doy == 365);
            assert((yoe + 1) % 4 == 0 && ((yoe + 1) % 100 != 0 || yoe == 399));
            vstd::arithmetic::div_mod::lemma_mod_multiples_vanish(100 * era, yoe + 1, 4);
            vstd::arithmetic::div_mod::lemma_mod_multiples_vanish(4 * era, yoe + 1, 100);
            assert(y == 4 * (100 * era) + (yoe + 1));
            assert(y == 100 * (4 * era) + (yoe + 1));
            if yoe == 399 {
                vstd::arithmetic::div_mod::lemma_mod_multiples_vanish(era + 1, 0, 400);
                assert(y == 400 * (era + 1) + 0);
            }
            assert(is_leap_year(y));
        }
    }
}

/// The day count of a calendar date gives the date back.
proof fn lemma_days_from_civil(dt: PromoDateNative)
    requires
        1 <= dt.month <= 12,
        1 <= dt.day <= days_in_month(dt.year as int, dt.month as int),
    ensures
        civil_from_days(days_from_civil(dt.year as int, dt.month as int, dt.day as int)) == dt,
{
    let y = dt.year as int;
    let m = dt.month as int;
    let d = dt.day as int;
    let y1 = if m <= 2 { y - 1 } else { y };
    let era = y1 / 400;
    let yoe = y1 - era * 400;
    vstd::arithmetic::div_mod::lemma_fundamental_div_mod(y1, 400);
    vstd::arithmetic::div_mod::lemma_mod_bound(y1, 400);
    assert(0 <= yoe < 400);
    let mp = if m > 2 { m - 3 } else { m + 9 };
    assert(0 <= mp <= 11);
    let mu = mp as u32;
    let du = d as u32;
    assert(mu == mp && du == d);
    lemma_month_inverse_0_bv(mu, du);
    lemma_month_inverse_1_bv(mu, du);
    lemma_month_inverse_2_bv(mu, du);
    lemma_month_inverse_3_bv(mu, du);
    let doy = (153 * mp + 2) / 5 + d - 1;
    assert(0 <= doy <= 365);
    if doy == 365 {
        assert(m == 2 && d == 29);
        assert(is_leap_year(y));
        assert(y == 400 * era + (yoe + 1));
        vstd::arithmetic::div_mod::lemma_mod_multiples_vanish(era, yoe + 1, 400);
        vstd::arithmetic::div_mod::lemma_mod_multiples_vanish(100 * era, yoe + 1, 4);
        vstd::arithmetic::div_mod::lemma_mod_multiples_vanish(4 * era, yoe + 1, 100);
        assert(y == 4 * (100 * era) + (yoe + 1));
        assert(y == 100 * (4 * era) + (yoe + 1));
        vstd::arithmetic::div_mod::lemma_mod_pos_bound(yoe + 1, 400);
        if (yoe + 1) % 400 == 0 {
            vstd::arithmetic::div_mod::lemma_fundamental_div_mod(yoe + 1, 400);
            assert(yoe == 399);
        }
        vstd::arithmetic::div_mod::lemma_fundamental_div_mod(yoe + 1, 4);
        vstd::arithmetic::div_mod::lemma_fundamental_div_mod(yoe, 4);
        vstd::arithmetic::div_mod::lemma_mod_pos_bound(yoe, 4);
        vstd::arithmetic::div_mod::lemma_mod_pos_bound(yoe + 1, 4);
        assert((yoe + 1) % 4 == 0);
        assert(yoe % 4 == 3) by (nonlinear_arith)
            requires
                yoe + 1 == 4 * ((yoe + 1) / 4) + (yoe + 1) % 4,
                yoe == 4 * (yoe / 4) + yoe % 4,
                (yoe + 1) % 4 == 0,
                0 <= yoe % 4 < 4,
        ;
        vstd::arithmetic::div_mod::lemma_fundamental_div_mod(yoe + 1, 100);
        vstd::arithmetic::div_mod::lemma_fundamental_div_mod(yoe, 100);
        vstd::arithmetic::div_mod::lemma_mod_pos_bound(yoe, 100);
        vstd::arithmetic::div_mod::lemma_mod_pos_bound(yoe + 1, 100);
        if yoe != 399 {
            assert((yoe + 1) % 100 != 0);
            assert(yoe % 100 != 99) by (nonlinear_arith)
                requires
                    yoe + 1 == 100 * ((yoe + 1) / 100) + (yoe + 1) % 100,
                    yoe == 100 * (yoe / 100) + yoe % 100,
                    (yoe + 1) % 100 != 0,
                    0 <= yoe % 100 < 100,
                    0 <= (yoe + 1) % 100 < 100,
            ;
        }
    }
    let yu = yoe as u32;
    let dyu = doy as u32;
    assert(yu == yoe && dyu == doy);
    assert(dyu <= 364u32 || (yu % 4u32 == 3u32 && (yu % 100u32 != 99u32 || yu == 399u32)));
    lemma_era_year_inverse_0_bv(yu, dyu);
    lemma_era_year_inverse_1_bv(yu, dyu);
    lemma_era_year_inverse_2_bv(yu, dyu);
    let doe = 365 * yoe + yoe / 4 - yoe / 100 + doy;
    assert(0 <= doe <= 146096);
    let z = days_from_civil(y, m, d);
    assert(z == era * 146097 + doe - 719468);
    vstd::arithmetic::div_mod::lemma_fundamental_div_mod_converse(z + 719468, 146097, era, doe);
    assert((doe - doe / 1460 + doe / 36524 - doe / 146096) / 365 == yoe);
    let c = civil_from_days(z);
    assert(c.year as int == y);
    assert(c.month as int == m);
    assert(c.day as int == d);
}

proof fn lemma_year_start_below_bv(yoe: u32)
    by (bit_vector)
    requires
        yoe <= 255u32,
    ensures
        yoe * 365 + yoe / 4 - yoe / 100 + 365 < 93808,
{
}

proof fn lemma_year_start_above_bv(yoe: u32)
    by (bit_vector)
    requires
        143u32 <= yoe,
        yoe <= 399u32,
    ensures
        yoe * 365 + yoe / 4 - yoe / 100 > 52169,
{
}

proof fn lemma_year_start_low_bv(yoe: u32)
    by (bit_vector)
    requires
        257u32 <= yoe,
        yoe <= 399u32,
    ensures
        yoe * 365 + yoe / 4 - yoe / 100 >= 93808,
{
}

proof fn lemma_year_start_high_bv(yoe: u32)
    by (bit_vector)
    requires
        yoe <= 141u32,
    ensures
        yoe * 365 + yoe / 4 - yoe / 100 + 365 <= 52169,
{
}

/// The date `n` days after 1899-12-30, for `n` within chrono's range, is a
/// valid date, and its serial number is `n` again.
pub proof fn lemma_excel_date(n: int)
    requires
        SERIAL_MIN <= n <= SERIAL_MAX,
    ensures
        valid_date(excel_date(n)),
        excel_serial(excel_date(n)) == n,
{
    let z = n - excel_epoch_offset();
    lemma_civil_from_days(z);
    let z1 = z + 719468;
    let era = z1 / 146097;
    let doe = z1 - era * 146097;
    vstd::arithmetic::div_mod::lemma_fundamental_div_mod(z1, 146097);
    vstd::arithmetic::div_mod::lemma_mod_bound(z1, 146097);
    assert(-656 <= era <= 655) by (nonlinear_arith)
        requires
            z1 == era * 146097 + doe,
            0 <= doe < 146097,
            -95745824 <= z1 <= 95745704,
    ;
    let du = doe as u32;
    assert(du == doe);
    lemma_era_year_bv(du);
    let yoe = (doe - doe / 1460 + doe / 36524 - doe / 146096) / 365;
    let start = 365 * yoe + yoe / 4 - yoe / 100;
    let doy = doe - start;
    let mp = (5 * doy + 2) / 153;
    let m = if mp < 10 { mp + 3 } else { mp - 9 };
    let c = civil_from_days(z);
    assert(c.year as int == yoe + era * 400 + if m <= 2 { 1int } else { 0int });
    if era == -656 {
        assert(doe >= 93808);
        if yoe <= 255 {
            lemma_year_start_below_bv(yoe as u32);
            assert(false);
        }
        if yoe == 256 {
            assert(doy >= 306);
            vstd::arithmetic::div_mod::lemma_div_is_ordered(1530, 5 * doy + 2, 153);
            assert(mp >= 10);
        }
    }
    if era == 655 {
        assert(doe <= 52169);
        if yoe >= 143 {
            lemma_year_start_above_bv(yoe as u32);
            assert(false);
        }
        if yoe == 142 {
            assert(doy <= 305);
            vstd::arithmetic::div_mod::lemma_div_is_ordered(5 * doy + 2, 1527, 153);
            assert(mp <= 9);
        }
    }
    assert(-262143 <= c.year <= 262142);
}

/// A valid date's serial number lies within chrono's range, and the date
/// that many days after 1899-12-30 is the date again.
pub proof fn lemma_excel_serial(dt: PromoDateNative)
    requires
        valid_date(dt),
    ensures
        SERIAL_MIN <= excel_serial(dt) <= SERIAL_MAX,
        excel_date(excel_serial(dt)) == dt,
{
    lemma_days_from_civil(dt);
    let y = dt.year as int;
    let m = dt.month as int;
    let d = dt.day as int;
    let y1 = if m <= 2 { y - 1 } else { y };
    let era = y1 / 400;
    let yoe = y1 - era * 400;
    vstd::arithmetic::div_mod::lemma_fundamental_div_mod(y1, 400);
    vstd::arithmetic::div_mod::lemma_mod_bound(y1, 400);
    assert(-656 <= era <= 655) by (nonlinear_arith)
        requires
            y1 == era * 400 + yoe,
            0 <= yoe < 400,
            -262144 <= y1 <= 262142,
    ;
    let mp = if m > 2 { m - 3 } else { m + 9 };
    let mu = mp as u32;
    let du = d as u32;
    assert(mu == mp && du == d);
    lemma_month_inverse_2_bv(mu, du);
    let ms = (153 * mp + 2) / 5;
    let doy = ms + d - 1;
    assert(0 <= doy <= 365);
    let start = 365 * yoe + yoe / 4 - yoe / 100;
    let doe = start + doy;
    let z = days_from_civil(y, m, d);
    assert(z == era * 146097 + doe - 719468);
    if era == -656 {
        if yoe >= 257 {
            lemma_year_start_low_bv(yoe as u32);
        } else {
            assert(yoe == 256);
            assert(m <= 2);
            vstd::arithmetic::div_mod::lemma_div_is_ordered(1532, 153 * mp + 2, 5);
            assert(doe >= 93808);
        }
    }
    if era == 655 {
        if yoe <= 141 {
            lemma_year_start_high_bv(yoe as u32);
        } else {
            assert(yoe == 142);
            assert(m > 2);
            vstd::arithmetic::div_mod::lemma_div_is_ordered(153 * mp + 2, 1379, 5);
            assert(doe <= 52169);
        }
    }
    if era <= 654 {
        let yu = yoe as u32;
        assert(yu == yoe);
        assert(start <= 146096 - 365) by {
            lemma_year_start_cap_bv(yu);
        }
    }
}

proof fn lemma_year_start_cap_bv(yoe: u32)
    by (bit_vector)
    requires
        yoe <= 399u32,
    ensures
        yoe * 365 + yoe / 4 - yoe / 100 <= 145731,
{
}

} // verus!
