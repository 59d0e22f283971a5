//! The columns and range of the table of a spreadsheet export.
use vstd::prelude::*;
use crate::xlsx::table_info::TableInfo;
use crate::promo_json::texts_view;
use crate::text::{nat_text, parse_usize, spec_parse_usize, u64_to_text};

verus! {

/// The state kept while the table part of a spreadsheet is read.
pub struct SharedDataShare {
    saved_dimensions: Option<String>,
    col_count: usize,
    table: TableInfo,
}

impl SharedDataShare {
    /// No saved range, no columns, an empty table.
    pub fn new() -> (s: Self)
        ensures
            s.saved_dimensions() is None,
            s.col_count() == 0,
            s.table().table_name@ == Seq::<char>::empty(),
            s.table().table_dimensions@ == Seq::<char>::empty(),
    {
        SharedDataShare { saved_dimensions: None, col_count: 0, table: TableInfo::empty() }
    }

    pub closed spec fn saved_dimensions(&self) -> Option<String> {
        self.saved_dimensions
    }

    pub closed spec fn col_count(&self) -> usize {
        self.col_count
    }

    pub closed spec fn table(&self) -> TableInfo {
        self.table
    }

    /// Takes the attributes of the `table` tag: the display name, when
    /// present, wins over the name; the range `ref` becomes the table's
    /// range and is returned, to be set as the range that is read.
    pub fn note_table_tag(&mut self, name: Option<&str>, display_name: Option<&str>, reference: Option<&str>) -> (dims: Option<String>)
        ensures
            final(self).table().table_name@ == match display_name {
                Some(d) => d@,
                None => match name {
                    Some(n) => n@,
                    None => old(self).table().table_name@,
                },
            },
            final(self).table().table_dimensions@ == match reference {
                Some(r) => r@,
                None => old(self).table().table_dimensions@,
            },
            match reference {
                Some(r) => dims matches Some(d) && d@ == r@,
                None => dims is None,
            },
            final(self).saved_dimensions() == old(self).saved_dimensions(),
            final(self).col_count() == old(self).col_count(),
    {
        match name {
            Some(n) => {
                self.table.table_name = String::from_str(n);
            },
            None => {},
        }
        match display_name {
            Some(d) => {
                self.table.table_name = String::from_str(d);
            },
            None => {},
        }
        match reference {
            Some(r) => {
                self.table.table_dimensions = String::from_str(r);
                Some(String::from_str(r))
            },
            None => None,
        }
    }

    /// Takes the `count` attribute of the `tableColumns` tag.  When the range
    /// to read is not known yet and the count reads as a number `n`, the
    /// range `A1:A<n+1>` is saved and `true` says that the row is skipped.
    pub fn note_column_count(&mut self, has_dimensions: bool, count: Option<&str>) -> (skip: bool)
        requires
            match count {
                Some(c) => spec_parse_usize(c@) matches Ok(n) ==> n < usize::MAX,
                None => true,
            },
        ensures
            skip == (!has_dimensions && (match count {
                Some(c) => spec_parse_usize(c@) is Ok,
                None => false,
            })),
            skip ==> match count {
                Some(c) => match (spec_parse_usize(c@), final(self).saved_dimensions()) {
                    (Ok(n), Some(d)) => d@ == "A1:A"@ + nat_text((n + 1) as nat),
                    _ => false,
                },
                None => false,
            },
            !skip ==> final(self).saved_dimensions() == old(self).saved_dimensions(),
            final(self).table() == old(self).table(),
            final(self).col_count() == old(self).col_count(),
    {
        if has_dimensions {
            return false;
        }
        match count {
            Some(c) => match parse_usize(c) {
                Ok(n) => {
                    let mut d = String::from_str("A1:A");
                    let last = u64_to_text((n + 1) as u64);
                    d.append(last.as_str());
                    self.saved_dimensions = Some(d);
                    true
                },
                Err(_) => false,
            },
            None => false,
        }
    }

    /// The table that was read: these column names, and the name and range
    /// taken from the `table` tag.
    pub fn into_table(self, columns: Vec<String>) -> (t: Table)
        ensures
            t.table_columns@ == columns@,
            t.table_info == self.table(),
    {
        Table { table_columns: columns, table_info: self.table }
    }
}

/// The column names and the name and range of a spreadsheet table.
#[derive(Clone, Default)]
pub struct Table {
    pub table_columns: Vec<String>,
    pub table_info: TableInfo,
}

/// How `{:?}` writes a list of strings.
pub uninterp spec fn debug_list_text(items: Seq<Seq<char>>) -> Seq<char>;

/// Writes the list with `{:?}`.  Claimed: the result is
/// `debug_list_text` of the texts; the quoting and escaping of std's
/// `Debug` is left to the name.
#[verifier::external_body]
fn debug_list(items: &Vec<String>) -> (s: String)
    ensures
        s@ == debug_list_text(texts_view(items@)),
{
    format!("{:?}", items)
}

impl Table {
    /// How the table is shown: its name and range, then its columns.
    pub fn to_text(&self) -> (s: String)
        ensures
            s@ == "Table Info: "@ + "Table Name: "@ + self.table_info.table_name@ + "\r\nDimensions: "@
                + self.table_info.table_dimensions@ + "\r\nColumns: "@ + debug_list_text(texts_view(self.table_columns@)),
    {
        let mut s = String::from_str("Table Info: ");
        let info = self.table_info.to_text();
        s.append(info.as_str());
        s.append("\r\nColumns: ");
        let cols = debug_list(&self.table_columns);
        s.append(cols.as_str());
        s
    }
}

} // verus!
