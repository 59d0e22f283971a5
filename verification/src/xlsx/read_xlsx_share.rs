//! The state kept while the shared strings of a spreadsheet are read.
use vstd::prelude::*;
use crate::xlsx::table_info::TableInfo;
use crate::promo_json::texts_view;

verus! {

/// The state kept while the shared strings of a spreadsheet are read.
pub struct SharedDataShare {
    saved_dimensions: Option<String>,
    col_count: usize,
    table: TableInfo,
}

impl SharedDataShare {
    /// No saved range, no columns, an empty table.
    pub fn new() -> (s: Self)
        ensures
            s.saved_dimensions() is None,
            s.col_count() == 0,
            s.table().table_name@ == Seq::<char>::empty(),
            s.table().table_dimensions@ == Seq::<char>::empty(),
    {
        SharedDataShare { saved_dimensions: None, col_count: 0, table: TableInfo::empty() }
    }

    pub closed spec fn saved_dimensions(&self) -> Option<String> {
        self.saved_dimensions
    }

    pub closed spec fn col_count(&self) -> usize {
        self.col_count
    }

    pub closed spec fn table(&self) -> TableInfo {
        self.table
    }
}

/// One row handed out by the sheet reader.
pub enum ReadRow {
    /// The texts of a row that passed.
    Valid(Vec<String>),
    /// The message of a row that was dropped with an error.
    Invalid(String),
    /// A row that was skipped.
    Skipped,
}

/// The texts of the rows that passed, row after row.
pub open spec fn row_values(rows: Seq<ReadRow>) -> Seq<Seq<char>>
    decreases rows.len(),
{
    if rows.len() == 0 {
        Seq::empty()
    } else {
        row_values(rows.drop_last()) + match rows.last() {
            ReadRow::Valid(v) => texts_view(v@),
            _ => Seq::empty(),
        }
    }
}

/// The lines `Error: <message>` of the rows dropped with an error, in order.
pub open spec fn row_errors(rows: Seq<ReadRow>) -> Seq<Seq<char>>
    decreases rows.len(),
{
    if rows.len() == 0 {
        Seq::empty()
    } else {
        row_errors(rows.drop_last()) + match rows.last() {
            ReadRow::Invalid(m) => seq!["Error: "@ + m@],
            _ => Seq::empty(),
        }
    }
}

/// Gathers what the reader handed out: the texts of the rows that passed,
/// one after the other (see `row_values`), and a line for each row dropped
/// with an error (see `row_errors`).
pub fn gather_rows(rows: &Vec<ReadRow>) -> (r: (Vec<String>, Vec<String>))
    ensures
        texts_view(r.0@) == row_values(rows@),
        texts_view(r.1@) == row_errors(rows@),
{
    let ghost all = rows@;
    let mut values: Vec<String> = Vec::new();
    let mut errors: Vec<String> = Vec::new();
    let mut i: usize = 0;
    while i < rows.len()
        invariant
            all == rows@,
            i <= all.len(),
            texts_view(values@) == row_values(all.take(i as int)),
            texts_view(errors@) == row_errors(all.take(i as int)),
        decreases all.len() - i,
    {
        assert(all.take(i + 1).drop_last() =~= all.take(i as int));
        assert(all.take(i + 1).last() == all[i as int]);
        match &rows[i] {
            ReadRow::Valid(v) => {
                let mut k: usize = 0;
                let ghost start = texts_view(values@);
                while k < v.len()
                    invariant
                        k <= v@.len(),
                        texts_view(values@) == start + texts_view(v@.take(k as int)),
                    decreases v@.len() - k,
                {
                    let ghost before = values@;
                    values.push(v[k].clone());
                    assert(texts_view(values@) =~= texts_view(before).push(v@[k as int]@));
                    assert(texts_view(v@.take(k + 1)) =~= texts_view(v@.take(k as int)).push(v@[k as int]@));
                    k += 1;
                }
                assert(v@.take(v@.len() as int) =~= v@);
            },
            ReadRow::Invalid(m) => {
                let mut line = String::from_str("Error: ");
                line.append(m.as_str());
                let ghost before = errors@;
                errors.push(line);
                assert(texts_view(errors@) =~= texts_view(before) + seq!["Error: "@ + m@]);
            },
            ReadRow::Skipped => {},
        }
        i += 1;
    }
    assert(all.take(all.len() as int) =~= all);
    (values, errors)
}

} // verus!
