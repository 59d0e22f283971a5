//! The state kept while the rows of a spreadsheet export are read.
use vstd::prelude::*;
use crate::column_data::ColumnData;
use crate::dates::{date_text, excel_serial, mdy_text, excel_date, parsed_date, DateParseError, SERIAL_MAX, SERIAL_MIN};
use crate::insert_into_promo::{promo_map_wf, PromoMap};
use crate::keyed::TextMap;
use crate::promo_json::Promotion;
use crate::text::spec_parse_i64;
use crate::xlsx::init::{lookup_view, resolve_shared_string, shared_outcome, ship_date_cell, ship_date_requirement, ColumnIndices, LookupView, SharedLookup};
use crate::promo_json::texts_view;
use crate::xlsx::read_xlsx_table::Table;
use crate::xlsx::requirement_type::{str_eq, check_view, requirement_outcome, test_requirement, RequirementCheck, RequirementType};
use crate::xlsx::table_info::TableInfo;

verus! {

/// What the reader of a spreadsheet export keeps from cell to cell and
/// from row to row.  `T` is the type of the numbers that numeric
/// conditions compare with.
pub struct Share<'a, T> {
    /// The type attribute of the last cell that had one.
    pub last_col_type_attrib: String,
    pub shared_strings: Vec<String>,
    pub dimensions: Option<String>,
    /// The sum of the quantities of the rows recorded.
    pub total_qty: i64,
    pub table_data: Table,
    /// The condition that a column's cells must meet, by column name.
    pub requirements: TextMap<RequirementType<'a, T>>,
    /// The promotion that each customer starts from.
    pub promo: Promotion,
    /// Each customer's promotion, by customer name.
    pub complete_promo: PromoMap,
    pub current_customer_name: String,
    /// Where the columns that the reader uses are.
    pub columns: ColumnIndices,
    pub errors: Vec<String>,
}

impl<'a, T> Share<'a, T> {
    /// The state before any row is read, for promotion `promo`: the only
    /// condition is that `Ship Date` lies within the promotion's dates.
    /// Fails when a date of the promotion cannot be read back.
    pub fn new(promo: Promotion) -> (r: Result<Self, DateParseError>)
        requires
            promo.wf(),
        ensures
            match (parsed_date(date_text(promo.start_date), "%m-%d-%Y"@), parsed_date(date_text(promo.end_date), "%m-%d-%Y"@)) {
                (Some(a), Some(b)) => r matches Ok(s) && {
                    &&& s.requirements.wf()
                    &&& s.requirements.as_map() == map!["Ship Date"@ => RequirementType::<'a, T>::DateRangeMatch(
                        excel_serial(a) as i64, excel_serial(b) as i64)]
                    &&& s.promo == promo
                    &&& promo_map_wf(&s.complete_promo)
                    &&& s.complete_promo.as_map() == Map::<Seq<char>, crate::promo_json::PromotionView>::empty()
                    &&& s.last_col_type_attrib@ == Seq::<char>::empty()
                    &&& s.shared_strings@.len() == 0
                    &&& s.dimensions is None
                    &&& s.total_qty == 0
                    &&& s.table_data.table_columns@.len() == 0
                    &&& s.table_data.table_info.table_name@ == Seq::<char>::empty()
                    &&& s.table_data.table_info.table_dimensions@ == Seq::<char>::empty()
                    &&& s.current_customer_name@ == Seq::<char>::empty()
                    &&& s.columns == (ColumnIndices {
                        qty_column_index: 0,
                        sales_column_index: 0,
                        customer_name_column_index: 0,
                        part_number_column_index: 0,
                        order_number_column_index: 0,
                        ship_date_column_index: 0,
                        part_number_desc_column_index: 0,
                    })
                    &&& s.errors@.len() == 0
                },
                _ => r is Err,
            },
    {
        let requirement = match ship_date_requirement(&promo) {
            Ok(req) => req,
            Err(e) => {
                return Err(e);
            },
        };
        let mut requirements: TextMap<RequirementType<'a, T>> = TextMap::new();
        requirements.insert_at(0, String::from_str("Ship Date"), requirement);
        let complete_promo: PromoMap = TextMap::new();
        let s = Share {
            last_col_type_attrib: String::new(),
            shared_strings: Vec::new(),
            dimensions: None,
            total_qty: 0,
            table_data: Table { table_columns: Vec::new(), table_info: TableInfo::empty() },
            requirements,
            promo,
            complete_promo,
            current_customer_name: String::new(),
            columns: ColumnIndices::new(),
            errors: Vec::new(),
        };
        assert(s.requirements.as_map() =~= map!["Ship Date"@ => s.requirements.as_map()["Ship Date"@]]);
        Ok(s)
    }

    /// What the condition on column `column`, if there is one, makes of the
    /// cell text `value`; a column without a condition keeps the cell.
    pub fn cell_check(&self, column: &str, value: &str) -> (r: RequirementCheck)
        requires
            self.requirements.wf(),
        ensures
            if self.requirements.as_map().contains_key(column@) {
                check_view(r) == requirement_outcome(self.requirements.as_map()[column@], value@, column@)
            } else {
                r is Keep
            },
    {
        match self.requirements.get(column) {
            Some(req) => test_requirement(req, value, column),
            None => RequirementCheck::Keep,
        }
    }

    /// What the text `value` of a finished cell in column `column` becomes,
    /// by the type attribute of the last typed cell: an index into the
    /// shared strings is looked up (see `shared_outcome`); in column
    /// `Ship Date`, text of type `str` that reads as a serial date is written
    /// as `%m/%d/%Y`; anything else stays.
    pub fn cell_value(&self, column: &str, value: &str) -> (r: SharedLookup)
        requires
            self.last_col_type_attrib@ == "str"@ && column@ == "Ship Date"@ ==> (spec_parse_i64(value@) matches Ok(v)
                ==> SERIAL_MIN <= v <= SERIAL_MAX),
        ensures
            lookup_view(r) == if self.last_col_type_attrib@ == "s"@ {
                shared_outcome(value@, texts_view(self.shared_strings@), Some(column@))
            } else if self.last_col_type_attrib@ == "str"@ && column@ == "Ship Date"@ {
                match spec_parse_i64(value@) {
                    Ok(v) => LookupView::Replaced(mdy_text(excel_date(v))),
                    Err(_) => LookupView::Kept,
                }
            } else {
                LookupView::Kept
            },
    {
        if str_eq(self.last_col_type_attrib.as_str(), "s") {
            resolve_shared_string(value, &self.shared_strings, Some(column))
        } else if str_eq(self.last_col_type_attrib.as_str(), "str") && str_eq(column, "Ship Date") {
            match ship_date_cell(value) {
                Some(s) => SharedLookup::Replaced(s),
                None => SharedLookup::Kept,
            }
        } else {
            SharedLookup::Kept
        }
    }

    /// Takes the type attribute `t` of a cell's tag, when it has one: it
    /// becomes the type of the last typed cell and is recorded in the cell.
    pub fn note_cell_type(&mut self, value: &mut ColumnData, type_attrib: Option<&str>)
        requires
            old(value).wf(),
        ensures
            final(value).wf(),
            final(value).value == old(value).value,
            final(value).type_of_data == old(value).type_of_data,
            match type_attrib {
                Some(t) => {
                    &&& final(self).last_col_type_attrib@ == t@
                    &&& final(value).saved_attribs.as_map() == if old(value).saved_attribs.as_map().contains_key("t"@) {
                        old(value).saved_attribs.as_map()
                    } else {
                        old(value).saved_attribs.as_map().insert("t"@, t@)
                    }
                },
                None => {
                    &&& final(self).last_col_type_attrib == old(self).last_col_type_attrib
                    &&& final(value).saved_attribs.as_map() == old(value).saved_attribs.as_map()
                },
            },
            final(self).shared_strings == old(self).shared_strings,
            final(self).requirements == old(self).requirements,
            final(self).promo == old(self).promo,
            final(self).complete_promo == old(self).complete_promo,
            final(self).total_qty == old(self).total_qty,
            final(self).columns == old(self).columns,
            final(self).errors == old(self).errors,
            final(self).dimensions == old(self).dimensions,
            final(self).table_data == old(self).table_data,
            final(self).current_customer_name == old(self).current_customer_name,
    {
        match type_attrib {
            Some(t) => {
                self.last_col_type_attrib = String::from_str(t);
                value.add_attrib(String::from_str("t"), String::from_str(t));
            },
            None => {},
        }
    }
}

} // verus!
