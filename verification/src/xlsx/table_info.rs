//! The name and cell range of a spreadsheet table.
use vstd::prelude::*;

verus! {

/// The name and cell range (such as `A1:G20`) of a spreadsheet table.
#[derive(Clone, Default)]
pub struct TableInfo {
    pub table_dimensions: String,
    pub table_name: String,
}

impl TableInfo {
    /// An empty name and range.
    pub fn empty() -> (t: TableInfo)
        ensures
            t.table_dimensions@ == Seq::<char>::empty(),
            t.table_name@ == Seq::<char>::empty(),
    {
        TableInfo { table_dimensions: String::new(), table_name: String::new() }
    }

    /// How the table is shown: its name and, on the next line, its range.
    pub fn to_text(&self) -> (s: String)
        ensures
            s@ == "Table Name: "@ + self.table_name@ + "\r\nDimensions: "@ + self.table_dimensions@,
    {
        let mut s = String::from_str("Table Name: ");
        s.append(self.table_name.as_str());
        s.append("\r\nDimensions: ");
        s.append(self.table_dimensions.as_str());
        s
    }
}

} // verus!
