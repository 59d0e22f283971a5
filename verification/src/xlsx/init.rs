//! What the reader of a spreadsheet export does with its header row, its
//! cells and its complete rows.
use vstd::prelude::*;
use crate::column_data::ColumnData;
use crate::dates::{convert_from_xlsx_date_to_formatted_string, date_text, excel_date, excel_serial, parsed_date, mdy_text, promo_date_range, DateParseError, SERIAL_MAX, SERIAL_MIN};
use crate::insert_into_promo::{base_promotion, can_insert_into_promo, insert_into_promo, promo_map_wf, promotion_accepts, promotion_after_row, row_part_number, row_qty_text, Pas, PromoMap};
use crate::keyed::TextMap;
use crate::promo_json::{row_view, row_wf, texts_view, Promotion};
use crate::text::{parse_i64, parse_usize, spec_parse_i64, spec_parse_usize, in_i64, ParseIntError};
use crate::xlsx::requirement_type::RequirementType;

verus! {

/// Where the columns that the reader uses are in a row.
#[derive(Clone, Copy, Debug, PartialEq, Eq, Structural)]
pub struct ColumnIndices {
    pub qty_column_index: usize,
    pub sales_column_index: usize,
    pub customer_name_column_index: usize,
    pub part_number_column_index: usize,
    pub order_number_column_index: usize,
    pub ship_date_column_index: usize,
    pub part_number_desc_column_index: usize,
}

impl ColumnIndices {
    /// Every column at position 0.
    pub fn new() -> (c: ColumnIndices)
        ensures
            c == (ColumnIndices {
                qty_column_index: 0,
                sales_column_index: 0,
                customer_name_column_index: 0,
                part_number_column_index: 0,
                order_number_column_index: 0,
                ship_date_column_index: 0,
                part_number_desc_column_index: 0,
            }),
    {
        ColumnIndices {
            qty_column_index: 0,
            sales_column_index: 0,
            customer_name_column_index: 0,
            part_number_column_index: 0,
            order_number_column_index: 0,
            ship_date_column_index: 0,
            part_number_desc_column_index: 0,
        }
    }
}

/// The position of header `name`, or the old position when it is absent.
pub open spec fn header_or(headers: Map<Seq<char>, usize>, name: Seq<char>, old_index: usize) -> usize {
    if headers.contains_key(name) { headers[name] } else { old_index }
}

/// A message when header `name` is absent.
pub open spec fn missing_message(headers: Map<Seq<char>, usize>, name: Seq<char>, message: Seq<char>) -> Seq<Seq<char>> {
    if headers.contains_key(name) { Seq::empty() } else { seq![message] }
}

/// The messages with which reading stops when headers are missing, in the
/// order the headers are looked for.  (A missing `Part Number Description`
/// is reported as a missing `Ship Date`; a missing `Ship Date` is not
/// reported.)
pub open spec fn header_messages(h: Map<Seq<char>, usize>) -> Seq<Seq<char>> {
    missing_message(h, "Qty"@, "No 'Qty' header column"@)
        + missing_message(h, "Sales"@, "No 'Sales' header column"@)
        + missing_message(h, "Related Customer Group"@, "No 'Related Customer Group' header column"@)
        + missing_message(h, "Part Number"@, "No 'Part Number' header column"@)
        + missing_message(h, "Order Number"@, "No 'Order Number' header column"@)
        + missing_message(h, "Part Number Description"@, "No 'Ship Date' header column"@)
}

fn look_up(headers: &TextMap<usize>, name: &str, old_index: usize, message: &str, messages: &mut Vec<String>) -> (r: usize)
    requires
        headers.wf(),
    ensures
        r == header_or(headers.as_map(), name@, old_index),
        final(messages)@.map_values(|s: String| s@) == old(messages)@.map_values(|s: String| s@)
            + missing_message(headers.as_map(), name@, message@),
{
    match headers.get(name) {
        Some(i) => {
            assert(final(messages)@.map_values(|s: String| s@) =~= old(messages)@.map_values(|s: String| s@)
                + missing_message(headers.as_map(), name@, message@));
            *i
        },
        None => {
            let ghost before = messages@;
            messages.push(String::from_str(message));
            assert(messages@.map_values(|s: String| s@) =~= before.map_values(|s: String| s@) + seq![message@]);
            old_index
        },
    }
}

/// Takes the positions of the columns from the header row `headers`
/// (column name to position) and returns the messages with which reading
/// stops for the missing ones (see `header_messages`).
pub fn assign_header_columns(idx: &mut ColumnIndices, headers: &TextMap<usize>) -> (messages: Vec<String>)
    requires
        headers.wf(),
    ensures
        final(idx).qty_column_index == header_or(headers.as_map(), "Qty"@, old(idx).qty_column_index),
        final(idx).sales_column_index == header_or(headers.as_map(), "Sales"@, old(idx).sales_column_index),
        final(idx).customer_name_column_index == header_or(headers.as_map(), "Related Customer Group"@, old(idx).customer_name_column_index),
        final(idx).part_number_column_index == header_or(headers.as_map(), "Part Number"@, old(idx).part_number_column_index),
        final(idx).order_number_column_index == header_or(headers.as_map(), "Order Number"@, old(idx).order_number_column_index),
        final(idx).ship_date_column_index == header_or(headers.as_map(), "Ship Date"@, old(idx).ship_date_column_index),
        final(idx).part_number_desc_column_index == header_or(headers.as_map(), "Part Number Description"@, old(idx).part_number_desc_column_index),
        messages@.map_values(|s: String| s@) == header_messages(headers.as_map()),
{
    let mut messages: Vec<String> = Vec::new();
    idx.qty_column_index = look_up(headers, "Qty", idx.qty_column_index, "No 'Qty' header column", &mut messages);
    idx.sales_column_index = look_up(headers, "Sales", idx.sales_column_index, "No 'Sales' header column", &mut messages);
    idx.customer_name_column_index = look_up(headers, "Related Customer Group", idx.customer_name_column_index,
        "No 'Related Customer Group' header column", &mut messages);
    idx.part_number_column_index = look_up(headers, "Part Number", idx.part_number_column_index,
        "No 'Part Number' header column", &mut messages);
    idx.order_number_column_index = look_up(headers, "Order Number", idx.order_number_column_index,
        "No 'Order Number' header column", &mut messages);
    let mut unused: Vec<String> = Vec::new();
    idx.ship_date_column_index = look_up(headers, "Ship Date", idx.ship_date_column_index, "", &mut unused);
    idx.part_number_desc_column_index = look_up(headers, "Part Number Description", idx.part_number_desc_column_index,
        "No 'Ship Date' header column", &mut messages);
    assert(messages@.map_values(|s: String| s@) =~= header_messages(headers.as_map()));
    messages
}

/// What a cell whose type attribute is `s` (an index into the shared
/// strings) becomes.
#[derive(Clone, Debug, PartialEq, Eq)]
pub enum SharedLookup {
    /// The shared string at that index.
    Replaced(String),
    /// The index is beyond the shared strings; the text stays.
    Kept,
    /// The text is not an index; the row is dropped with this message.
    Unreadable(String),
}

/// The message of a reading error, with the column's name when known.
pub open spec fn error_message(e: ParseIntError, column: Option<Seq<char>>) -> Seq<char> {
    match column {
        Some(c) => e.spec_message() + " for column "@ + c,
        None => e.spec_message(),
    }
}

/// What becomes of a cell, as mathematical values.
pub enum LookupView {
    Replaced(Seq<char>),
    Kept,
    Unreadable(Seq<char>),
}

pub open spec fn lookup_view(r: SharedLookup) -> LookupView {
    match r {
        SharedLookup::Replaced(s) => LookupView::Replaced(s@),
        SharedLookup::Kept => LookupView::Kept,
        SharedLookup::Unreadable(m) => LookupView::Unreadable(m@),
    }
}

/// What a shared-string cell with text `text` becomes: the shared string
/// that the text indexes; the text itself when the index is beyond the
/// shared strings; an error when the text is not an index.
pub open spec fn shared_outcome(text: Seq<char>, shared: Seq<Seq<char>>, column: Option<Seq<char>>) -> LookupView {
    match spec_parse_usize(text) {
        Ok(i) => if i < shared.len() { LookupView::Replaced(shared[i]) } else { LookupView::Kept },
        Err(e) => LookupView::Unreadable(error_message(e, column)),
    }
}

/// What a shared-string cell with text `text` becomes (see `shared_outcome`).
pub fn resolve_shared_string(text: &str, shared_strings: &Vec<String>, column: Option<&str>) -> (r: SharedLookup)
    ensures
        lookup_view(r) == shared_outcome(text@, texts_view(shared_strings@), match column {
            Some(c) => Some(c@),
            None => None,
        }),
{
    match parse_usize(text) {
        Ok(valid_index) => {
            if valid_index < shared_strings.len() {
                SharedLookup::Replaced(shared_strings[valid_index].clone())
            } else {
                SharedLookup::Kept
            }
        },
        Err(er) => {
            let mut msg = String::from_str(er.message());
            match column {
                Some(col) => {
                    msg.append(" for column ");
                    msg.append(col);
                },
                None => {},
            }
            SharedLookup::Unreadable(msg)
        },
    }
}

/// The text of a `Ship Date` cell of type `str`: a serial date is written
/// as `%m/%d/%Y`; text that is not an integer stays.
pub fn ship_date_cell(value: &str) -> (r: Option<String>)
    requires
        spec_parse_i64(value@) matches Ok(v) ==> SERIAL_MIN <= v <= SERIAL_MAX,
    ensures
        match spec_parse_i64(value@) {
            Ok(v) => r matches Some(s) && s@ == mdy_text(excel_date(v)),
            Err(_) => r is None,
        },
{
    match parse_i64(value) {
        Ok(valid_parse) => Some(convert_from_xlsx_date_to_formatted_string(valid_parse)),
        Err(_) => None,
    }
}

/// The condition on `Ship Date` that a promotion sets: a serial date from
/// its first to its last day, both read back from their `m-d-y` texts.
pub fn ship_date_requirement<'a, T>(promo: &Promotion) -> (r: Result<RequirementType<'a, T>, DateParseError>)
    ensures
        match (parsed_date(date_text(promo.start_date), "%m-%d-%Y"@), parsed_date(date_text(promo.end_date), "%m-%d-%Y"@)) {
            (Some(a), Some(b)) => r matches Ok(RequirementType::DateRangeMatch(x, y))
                && x == excel_serial(a) as i64 && y == excel_serial(b) as i64,
            _ => r is Err,
        },
{
    match promo_date_range(&promo.start_date, &promo.end_date) {
        Ok((start, end)) => Ok(RequirementType::DateRangeMatch(start, end)),
        Err(e) => Err(e),
    }
}


/// The purchase row with the positions the reader found for the part
/// number and the quantity.
pub open spec fn sheet_pas<'a>(row: &'a Vec<ColumnData>, idx: ColumnIndices) -> Pas<'a> {
    Pas { item_name: row, part_number_index: idx.part_number_column_index, qty_index: idx.qty_column_index }
}

/// A complete row can be recorded: its customer and quantity cells exist,
/// the quantity reads as an integer that the running total can take, and
/// the customer's promotion accepts the row.
pub open spec fn sheet_row_accepted(m: &PromoMap, promo: &Promotion, total_qty: i64, row: &Vec<ColumnData>, idx: ColumnIndices) -> bool {
    let rv = row_view(row@);
    &&& idx.customer_name_column_index < rv.len()
    &&& idx.qty_column_index < rv.len()
    &&& spec_parse_i64(rv[idx.qty_column_index as int].value) matches Ok(q)
    &&& in_i64(total_qty + q)
    &&& promotion_accepts(
        base_promotion(m.as_map(), rv[idx.customer_name_column_index as int].value, promo@),
        &sheet_pas(row, idx),
    )
}

/// Whether `record_sheet_row` may record the row (see `sheet_row_accepted`).
pub fn sheet_row_ready(m: &PromoMap, promo: &Promotion, total_qty: i64, row: &Vec<ColumnData>, idx: &ColumnIndices) -> (b: bool)
    requires
        promo_map_wf(m),
    ensures
        b == sheet_row_accepted(m, promo, total_qty, row, *idx),
{
    if idx.customer_name_column_index >= row.len() || idx.qty_column_index >= row.len() {
        return false;
    }
    match parse_i64(row[idx.qty_column_index].value.as_str()) {
        Err(_) => false,
        Ok(q) => {
            if total_qty.checked_add(q).is_none() {
                return false;
            }
            let pass = Pas { item_name: row, part_number_index: idx.part_number_column_index, qty_index: idx.qty_column_index };
            can_insert_into_promo(m, row[idx.customer_name_column_index].value.as_str(), promo, &pass)
        },
    }
}

/// What recording a complete row does to the customer's promotion (see
/// `insert_into_promo`).
pub open spec fn sheet_row_after(m: &PromoMap, promo: &Promotion, row: &Vec<ColumnData>, idx: ColumnIndices) -> (crate::promo_json::PromotionView, Result<(), ParseIntError>) {
    let rv = row_view(row@);
    let p = sheet_pas(row, idx);
    promotion_after_row(
        base_promotion(m.as_map(), rv[idx.customer_name_column_index as int].value, promo@),
        row_part_number(rv, &p),
        row_qty_text(rv, &p),
        rv,
    )
}

/// Records a complete row of the spreadsheet: the purchase goes into the
/// promotion of the customer named in the row (see `insert_into_promo`),
/// a quantity error of a known customer is noted as `"Error Parsing <error> "`,
/// and the quantity is added to the running total.
pub fn record_sheet_row(
    complete_promo: &mut PromoMap,
    promo: &Promotion,
    errors: &mut Vec<String>,
    total_qty: &mut i64,
    valid_row: &Vec<ColumnData>,
    idx: &ColumnIndices,
)
    requires
        promo_map_wf(old(complete_promo)),
        promo.wf(),
        row_wf(valid_row@),
        sheet_row_accepted(old(complete_promo), promo, *old(total_qty), valid_row, *idx),
    ensures
        promo_map_wf(final(complete_promo)),
        ({
            let rv = row_view(valid_row@);
            let name = rv[idx.customer_name_column_index as int].value;
            let after = sheet_row_after(old(complete_promo), promo, valid_row, *idx);
            &&& final(complete_promo).as_map() == old(complete_promo).as_map().insert(name, after.0)
            &&& final(errors)@.map_values(|s: String| s@) == old(errors)@.map_values(|s: String| s@) + match after.1 {
                Err(e) => if old(complete_promo).as_map().contains_key(name) {
                    seq!["Error Parsing "@ + e.spec_message() + " "@]
                } else {
                    Seq::empty()
                },
                Ok(()) => Seq::empty(),
            }
            &&& *final(total_qty) == *old(total_qty) + spec_parse_i64(rv[idx.qty_column_index as int].value)->Ok_0
        }),
{
    let customer_name = valid_row[idx.customer_name_column_index].value.clone();
    let qty = match parse_i64(valid_row[idx.qty_column_index].value.as_str()) {
        Ok(q) => q,
        Err(_) => {
            return;
        },
    };
    let pass = Pas { item_name: valid_row, part_number_index: idx.part_number_column_index, qty_index: idx.qty_column_index };
    let ghost before = errors@;
    match insert_into_promo(complete_promo, customer_name, promo, &pass) {
        Ok(_) => {},
        Err(e) => {
            let mut i: usize = 0;
            while i < e.len()
                invariant
                    i <= e@.len(),
                    errors@.map_values(|s: String| s@) == before.map_values(|s: String| s@)
                        + e@.take(i as int).map_values(|x: ParseIntError| "Error Parsing "@ + x.spec_message() + " "@),
                decreases e@.len() - i,
            {
                let mut msg = String::from_str("Error Parsing ");
                msg.append(e[i].message());
                msg.append(" ");
                let ghost prev = errors@;
                errors.push(msg);
                assert(errors@.map_values(|s: String| s@) =~= prev.map_values(|s: String| s@).push(msg@));
                assert(e@.take(i + 1).map_values(|x: ParseIntError| "Error Parsing "@ + x.spec_message() + " "@)
                    =~= e@.take(i as int).map_values(|x: ParseIntError| "Error Parsing "@ + x.spec_message() + " "@)
                        .push("Error Parsing "@ + e@[i as int].spec_message() + " "@));
                i += 1;
            }
            assert(e@.take(e@.len() as int) =~= e@);
        },
    }
    *total_qty = *total_qty + qty;
}

} // verus!
