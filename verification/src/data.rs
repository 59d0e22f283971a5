//! Purchase records from a CSV export, the input files, and the result of
//! reading them.
use vstd::prelude::*;
use crate::column_data::{AttribMap, ColumnData, ColumnDataView};
use crate::dates::{parsed_date_time, ymd_text, PromoDateNative};
use crate::insert_into_promo::{base_promotion, can_insert_into_promo, insert_into_promo, promo_map_wf, promotion_after_row, promotion_takes_row, Pas, PromoMap};
use crate::promo_json::{Promotion, PromotionView};
use crate::promo_json::{row_view, row_wf};
use crate::text::{chars_of, string_from_chars};

verus! {

/// One line of a CSV purchase export.
#[derive(Clone, Debug, Default, PartialEq, Eq, PartialOrd, Ord)]
pub struct Record {
    pub ship_date: String,
    pub cust_group: String,
    pub order_ship: String,
    pub part_num_desc: String,
    pub qty: String,
    pub sales: String,
    pub part_number1: String,
}

/// The texts of a record.
pub struct RecordView {
    pub ship_date: Seq<char>,
    pub cust_group: Seq<char>,
    pub order_ship: Seq<char>,
    pub part_num_desc: Seq<char>,
    pub qty: Seq<char>,
    pub sales: Seq<char>,
    pub part_number1: Seq<char>,
}

impl View for Record {
    type V = RecordView;

    open spec fn view(&self) -> RecordView {
        RecordView {
            ship_date: self.ship_date@,
            cust_group: self.cust_group@,
            order_ship: self.order_ship@,
            part_num_desc: self.part_num_desc@,
            qty: self.qty@,
            sales: self.sales@,
            part_number1: self.part_number1@,
        }
    }
}

impl Record {
    /// A copy of the record.
    pub fn duplicate(&self) -> (r: Record)
        ensures
            r@ == self@,
    {
        Record {
            ship_date: self.ship_date.clone(),
            cust_group: self.cust_group.clone(),
            order_ship: self.order_ship.clone(),
            part_num_desc: self.part_num_desc.clone(),
            qty: self.qty.clone(),
            sales: self.sales.clone(),
            part_number1: self.part_number1.clone(),
        }
    }

    /// A list holding a copy of the record.
    pub fn make_vec_add_self(&self) -> (v: Vec<Record>)
        ensures
            v@.len() == 1,
            v@[0]@ == self@,
    {
        let mut new_rec = Vec::new();
        new_rec.push(self.duplicate());
        new_rec
    }

    /// How the record is shown: `"Item <part number> - <quantity>"`.
    pub fn to_text(&self) -> (s: String)
        ensures
            s@ == "Item "@ + self.part_number1@ + " - "@ + self.qty@,
    {
        let mut s = String::from_str("Item ");
        s.append(self.part_number1.as_str());
        s.append(" - ");
        s.append(self.qty.as_str());
        s
    }
}

/// `s` without its `$` characters.
pub open spec fn without_dollars(s: Seq<char>) -> Seq<char>
    decreases s.len(),
{
    if s.len() == 0 {
        s
    } else {
        let r = without_dollars(s.drop_last());
        if s.last() == '$' { r } else { r.push(s.last()) }
    }
}

fn remove_dollars(s: &String) -> (r: String)
    ensures
        r@ == without_dollars(s@),
{
    let cs = chars_of(s.as_str());
    let mut out: Vec<char> = Vec::new();
    let mut i: usize = 0;
    while i < cs.len()
        invariant
            i <= cs@.len(),
            cs@ == s@,
            out@ == without_dollars(cs@.take(i as int)),
        decreases cs@.len() - i,
    {
        assert(cs@.take(i + 1).drop_last() =~= cs@.take(i as int));
        if cs[i] != '$' {
            out.push(cs[i]);
        }
        i += 1;
    }
    assert(cs@.take(cs@.len() as int) =~= cs@);
    string_from_chars(out.as_slice())
}

/// The format of ship dates in CSV exports.
pub open spec fn csv_ship_date_format() -> Seq<char> {
    "%Y-%m-%d %H:%M:%S"@
}

/// What a CSV record gives.
pub enum CsvRow {
    /// The record has no ship date or no customer group and is passed over.
    Skipped,
    /// The ship date does not read as `%Y-%m-%d %H:%M:%S`.
    UnreadableShipDate,
    /// The customer and the purchase row: description, customer group, ship
    /// date (as `%Y-%m-%d`), part number, quantity, sales (without `$`) and
    /// order number; the part number is cell 3 and the quantity cell 4.
    Row { customer: String, row: Vec<ColumnData> },
}

/// A plain cell holding text `v`.
pub open spec fn plain_cell(v: Seq<char>) -> ColumnDataView {
    ColumnDataView { value: v, saved_attribs: Map::empty(), type_of_data: Seq::empty() }
}

fn plain_cell_of(v: String) -> (c: ColumnData)
    ensures
        c.wf(),
        c@ == plain_cell(v@),
{
    ColumnData::new(v, AttribMap::new())
}

/// The purchase row of a record whose ship date reads as `d`: description,
/// customer group, ship date as `%Y-%m-%d`, part number, quantity, sales
/// without `$`, order number.
pub open spec fn csv_cells(rec: RecordView, d: PromoDateNative) -> Seq<ColumnDataView> {
    seq![
        plain_cell(rec.part_num_desc),
        plain_cell(rec.cust_group),
        plain_cell(ymd_text(d)),
        plain_cell(rec.part_number1),
        plain_cell(rec.qty),
        plain_cell(without_dollars(rec.sales)),
        plain_cell(rec.order_ship),
    ]
}

impl CsvRow {
    /// What the record gives (see the variants).
    pub fn from_record(rec: &Record) -> (r: CsvRow)
        ensures
            rec.ship_date@.len() == 0 || rec.cust_group@.len() == 0 ==> r is Skipped,
            rec.ship_date@.len() > 0 && rec.cust_group@.len() > 0 ==> match parsed_date_time(rec.ship_date@, csv_ship_date_format()) {
                None => r is UnreadableShipDate,
                Some(d) => r matches CsvRow::Row { customer, row } && customer@ == rec.cust_group@ && row_wf(row@)
                    && row_view(row@) == csv_cells(rec@, d),
            },
    {
        if rec.ship_date.as_str().is_empty() || rec.cust_group.as_str().is_empty() {
            return CsvRow::Skipped;
        }
        let ship_date = match crate::dates::parse_date_time(rec.ship_date.as_str(), "%Y-%m-%d %H:%M:%S") {
            Some(d) => crate::dates::format_date(d, "%Y-%m-%d"),
            None => {
                return CsvRow::UnreadableShipDate;
            },
        };
        let sales = remove_dollars(&rec.sales);
        let mut row: Vec<ColumnData> = Vec::new();
        row.push(plain_cell_of(rec.part_num_desc.clone()));
        row.push(plain_cell_of(rec.cust_group.clone()));
        row.push(plain_cell_of(ship_date));
        row.push(plain_cell_of(rec.part_number1.clone()));
        row.push(plain_cell_of(rec.qty.clone()));
        row.push(plain_cell_of(sales));
        row.push(plain_cell_of(rec.order_ship.clone()));
        assert(row_view(row@) =~= seq![
            plain_cell(rec.part_num_desc@),
            plain_cell(rec.cust_group@),
            row@[2]@,
            plain_cell(rec.part_number1@),
            plain_cell(rec.qty@),
            plain_cell(without_dollars(rec.sales@)),
            plain_cell(rec.order_ship@),
        ]);
        CsvRow::Row { customer: rec.cust_group.clone(), row }
    }
}

/// Where the columns of a purchase row are, and the promotions worked out.
pub struct PertInfo {
    pub data: PromoMap,
    pub order_number_column_index: usize,
    pub customer_name_column_index: usize,
    pub part_number_column_index: usize,
    pub part_number_desc_column_index: usize,
    pub sales_column_index: usize,
    pub qty_column_index: usize,
    pub ship_date_column_index: usize,
}

impl PertInfo {
    /// The result of reading a CSV export: the rows made by
    /// `CsvRow::from_record` have the description in cell 0, the customer in
    /// 1, the ship date in 2, the part number in 3, the quantity in 4, the
    /// sales in 5 and the order number in 6.
    pub fn for_csv(data: PromoMap) -> (p: PertInfo)
        ensures
            p.data == data,
            p.order_number_column_index == 6,
            p.customer_name_column_index == 1,
            p.part_number_column_index == 3,
            p.part_number_desc_column_index == 0,
            p.sales_column_index == 5,
            p.qty_column_index == 4,
            p.ship_date_column_index == 2,
    {
        PertInfo {
            data,
            order_number_column_index: 6,
            customer_name_column_index: 1,
            part_number_column_index: 3,
            part_number_desc_column_index: 0,
            sales_column_index: 5,
            qty_column_index: 4,
            ship_date_column_index: 2,
        }
    }
}

/// A CSV export of purchases, with the promotion file to match it against.
pub struct CSVFile<'a> {
    csv_file_path: &'a str,
    json_promo_path: &'a str,
}

impl<'a> CSVFile<'a> {
    pub fn new(csv_file_path: &'a str, json_promo_path: &'a str) -> (f: Self)
        ensures
            f.csv_file_path()@ == csv_file_path@,
            f.json_promo_path()@ == json_promo_path@,
    {
        CSVFile { csv_file_path, json_promo_path }
    }

    pub closed spec fn csv_file_path(&self) -> &'a str {
        self.csv_file_path
    }

    pub closed spec fn json_promo_path(&self) -> &'a str {
        self.json_promo_path
    }

    /// The path of the export.
    pub fn csv_path(&self) -> (p: &'a str)
        ensures
            p@ == self.csv_file_path()@,
    {
        self.csv_file_path
    }

    /// The path of the promotion file.
    pub fn promo_path(&self) -> (p: &'a str)
        ensures
            p@ == self.json_promo_path()@,
    {
        self.json_promo_path
    }
}

/// A spreadsheet export of purchases, with the promotion file to match it
/// against.
pub struct XLSXFile<'a> {
    xlsx_file: &'a str,
    json_promo_file: &'a str,
}

impl<'a> XLSXFile<'a> {
    pub fn new(xlsx_file: &'a str, json_promo_file: &'a str) -> (f: Self)
        ensures
            f.xlsx_file()@ == xlsx_file@,
            f.json_promo_file()@ == json_promo_file@,
    {
        XLSXFile { xlsx_file, json_promo_file }
    }

    pub closed spec fn xlsx_file(&self) -> &'a str {
        self.xlsx_file
    }

    pub closed spec fn json_promo_file(&self) -> &'a str {
        self.json_promo_file
    }

    /// The path of the spreadsheet.
    pub fn xlsx_path(&self) -> (p: &'a str)
        ensures
            p@ == self.xlsx_file()@,
    {
        self.xlsx_file
    }

    /// The path of the promotion file.
    pub fn promo_path(&self) -> (p: &'a str)
        ensures
            p@ == self.json_promo_file()@,
    {
        self.json_promo_file
    }
}

/// An input file of a kind that cannot be read.
pub struct LoadError {
    file_type: String,
}

impl LoadError {
    pub fn new(file_type: String) -> (e: Self)
        ensures
            e.file_type() == file_type@,
    {
        LoadError { file_type }
    }

    pub closed spec fn file_type(&self) -> Seq<char> {
        self.file_type@
    }

    /// How the error is shown.
    pub fn message(&self) -> (s: String)
        ensures
            s@ == "File canno't be of type: "@ + self.file_type(),
    {
        let mut s = String::from_str("File canno't be of type: ");
        s.append(self.file_type.as_str());
        s
    }

    /// How the error is shown for debugging.
    pub fn debug_message(&self) -> (s: String)
        ensures
            s@ == "File canno't be of type: "@ + self.file_type() + ", only looks at extention of file."@,
    {
        let mut s = self.message();
        s.append(", only looks at extention of file.");
        s
    }
}

/// The extension of the file name of a path, as `Path::extension` gives it.
pub uninterp spec fn file_extension(path: Seq<char>) -> Option<Seq<char>>;

/// Calls `Path::extension` on the path and turns the extension into text.
/// Claimed: the result is `file_extension(file_path)`; since the path is
/// text, the extension is text too and the conversion keeps it as it is.
#[verifier::external_body]
fn path_extension(file_path: &str) -> (r: Option<String>)
    ensures
        match r {
            Some(e) => file_extension(file_path@) == Some(e@),
            None => file_extension(file_path@) is None,
        },
{
    match std::path::Path::new(file_path).extension() {
        Some(ext) => Some(ext.to_string_lossy().into_owned()),
        None => None,
    }
}

/// The kinds of purchase files that can be read.
#[derive(Clone, Copy, Debug, PartialEq, Eq, Structural)]
pub enum FileKind {
    Csv,
    Xlsx,
}

/// Which reader a file with extension `ext` goes to: `csv` and `xlsx` are
/// read; another extension is refused with that extension as the file
/// type, and no extension with a note that one is needed.
pub open spec fn extension_kind(ext: Option<Seq<char>>, r: Result<FileKind, LoadError>) -> bool {
    match ext {
        Some(e) => if e == "csv"@ {
            r == Ok::<FileKind, LoadError>(FileKind::Csv)
        } else if e == "xlsx"@ {
            r == Ok::<FileKind, LoadError>(FileKind::Xlsx)
        } else {
            r matches Err(le) && le.file_type() == e
        },
        None => r matches Err(le) && le.file_type() == ".csv or .xlsx file name required!"@,
    }
}

/// Which reader a file with extension `ext` goes to (see `extension_kind`).
pub fn kind_of_extension(ext: Option<&str>) -> (r: Result<FileKind, LoadError>)
    ensures
        extension_kind(match ext {
            Some(e) => Some(e@),
            None => None,
        }, r),
{
    match ext {
        Some(e) => {
            if crate::xlsx::requirement_type::str_eq(e, "csv") {
                Ok(FileKind::Csv)
            } else if crate::xlsx::requirement_type::str_eq(e, "xlsx") {
                Ok(FileKind::Xlsx)
            } else {
                Err(LoadError::new(String::from_str(e)))
            }
        },
        None => Err(LoadError::new(String::from_str(".csv or .xlsx file name required!"))),
    }
}

/// Which reader a purchase file goes to, by the extension of its name (see
/// `extension_kind`).
pub fn file_kind(file_path: &str) -> (r: Result<FileKind, LoadError>)
    ensures
        extension_kind(file_extension(file_path@), r),
{
    match path_extension(file_path) {
        Some(ext) => kind_of_extension(Some(ext.as_str())),
        None => kind_of_extension(None),
    }
}

/// Why recording CSV records stopped, with the position of the record.
#[derive(Clone, Copy, Debug, PartialEq, Eq, Structural)]
pub enum CsvStop {
    /// The record's ship date does not read as `%Y-%m-%d %H:%M:%S`; such
    /// records are not handled.
    UnreadableShipDate(usize),
    /// Recording the record would take a total beyond `i64`.
    TotalOverflow(usize),
}

/// The customers' promotions after the records, starting from `m`, and
/// where recording stopped, if it did.  A skipped record changes nothing; a
/// row goes into the customer's promotion (see `insert_into_promo`, the
/// part number in cell 3, the quantity in cell 4).
pub open spec fn csv_run(m: Map<Seq<char>, PromotionView>, template: PromotionView, recs: Seq<RecordView>) -> (Map<Seq<char>, PromotionView>, Option<CsvStop>)
    decreases recs.len(),
{
    if recs.len() == 0 {
        (m, None)
    } else {
        let prev = csv_run(m, template, recs.drop_last());
        let k = (recs.len() - 1) as usize;
        let rec = recs.last();
        if prev.1 is Some || rec.ship_date.len() == 0 || rec.cust_group.len() == 0 {
            prev
        } else {
            match parsed_date_time(rec.ship_date, csv_ship_date_format()) {
                None => (prev.0, Some(CsvStop::UnreadableShipDate(k))),
                Some(d) => {
                    let cells = csv_cells(rec, d);
                    let base = base_promotion(prev.0, rec.cust_group, template);
                    if promotion_takes_row(base, cells, 3, 4) {
                        (prev.0.insert(rec.cust_group, promotion_after_row(base, cells[3].value, cells[4].value, cells).0), None)
                    } else {
                        (prev.0, Some(CsvStop::TotalOverflow(k)))
                    }
                },
            }
        }
    }
}

/// Once recording has stopped, later records change nothing.
proof fn lemma_csv_run_stays(m: Map<Seq<char>, PromotionView>, template: PromotionView, recs: Seq<RecordView>, i: int)
    requires
        0 <= i <= recs.len(),
        csv_run(m, template, recs.take(i)).1 is Some,
    ensures
        csv_run(m, template, recs) == csv_run(m, template, recs.take(i)),
    decreases recs.len(),
{
    if recs.len() == i {
        assert(recs.take(i) =~= recs);
    } else {
        assert(recs.drop_last().take(i) =~= recs.take(i));
        lemma_csv_run_stays(m, template, recs.drop_last(), i);
    }
}

/// Records the CSV records in order into the customers' promotions (see
/// `csv_run`); stops at the first record with an unreadable ship date or one
/// that a total cannot take, and says which.
pub fn record_csv_rows(complete_promo: &mut PromoMap, template: &Promotion, records: &Vec<Record>) -> (r: Result<(), CsvStop>)
    requires
        promo_map_wf(old(complete_promo)),
        template.wf(),
    ensures
        promo_map_wf(final(complete_promo)),
        csv_run(old(complete_promo).as_map(), template@, records@.map_values(|x: Record| x@))
            == (final(complete_promo).as_map(), match r {
                Ok(()) => None,
                Err(stop) => Some(stop),
            }),
{
    let ghost recs = records@.map_values(|x: Record| x@);
    let ghost start = complete_promo.as_map();
    let mut i: usize = 0;
    while i < records.len()
        invariant
            recs == records@.map_values(|x: Record| x@),
            start == old(complete_promo).as_map(),
            template.wf(),
            promo_map_wf(complete_promo),
            i <= records@.len(),
            csv_run(start, template@, recs.take(i as int)) == (complete_promo.as_map(), None::<CsvStop>),
        decreases records@.len() - i,
    {
        let ghost before = complete_promo.as_map();
        assert(recs.take(i + 1).drop_last() =~= recs.take(i as int));
        assert(recs.take(i + 1).last() == records@[i as int]@);
        match CsvRow::from_record(&records[i]) {
            CsvRow::Skipped => {},
            CsvRow::UnreadableShipDate => {
                proof { lemma_csv_run_stays(start, template@, recs, i + 1); }
                return Err(CsvStop::UnreadableShipDate(i));
            },
            CsvRow::Row { customer, row } => {
                let pass = Pas { item_name: &row, part_number_index: 3, qty_index: 4 };
                if !can_insert_into_promo(complete_promo, customer.as_str(), template, &pass) {
                    proof { lemma_csv_run_stays(start, template@, recs, i + 1); }
                    return Err(CsvStop::TotalOverflow(i));
                }
                let _ = insert_into_promo(complete_promo, customer, template, &pass);
            },
        }
        i += 1;
    }
    assert(recs.take(records@.len() as int) =~= recs);
    Ok(())
}

/// When recording CSV records runs to the end, the customers already in the
/// map stay, every customer named by a record with a ship date and a
/// customer comes in (whether or not a group takes its part number), and no
/// other name comes in.
pub proof fn lemma_csv_customers(m: Map<Seq<char>, PromotionView>, template: PromotionView, recs: Seq<RecordView>)
    requires
        csv_run(m, template, recs).1 is None,
    ensures
        forall|k: Seq<char>| m.contains_key(k) ==> #[trigger] csv_run(m, template, recs).0.contains_key(k),
        forall|i: int| 0 <= i < recs.len() && recs[i].ship_date.len() > 0 && recs[i].cust_group.len() > 0
            ==> csv_run(m, template, recs).0.contains_key(#[trigger] recs[i].cust_group),
        forall|k: Seq<char>| #[trigger] csv_run(m, template, recs).0.contains_key(k)
            ==> m.contains_key(k) || exists|i: int| 0 <= i < recs.len() && recs[i].cust_group == k,
    decreases recs.len(),
{
    if recs.len() > 0 {
        let t = recs.drop_last();
        let prev = csv_run(m, template, t);
        assert(prev.1 is None);
        lemma_csv_customers(m, template, t);
        let res = csv_run(m, template, recs).0;
        let rec = recs.last();
        assert forall|i: int| 0 <= i < recs.len() && recs[i].ship_date.len() > 0 && recs[i].cust_group.len() > 0
            implies res.contains_key(#[trigger] recs[i].cust_group) by {
            if i < recs.len() - 1 {
                assert(recs[i] == t[i]);
                assert(prev.0.contains_key(t[i].cust_group));
            }
        }
        assert forall|k: Seq<char>| #[trigger] res.contains_key(k) implies m.contains_key(k) || exists|i: int| 0 <= i < recs.len() && recs[i].cust_group == k by {
            if !prev.0.contains_key(k) {
                assert(recs[recs.len() - 1].cust_group == k);
            } else if !m.contains_key(k) {
                let i = choose|i: int| 0 <= i < t.len() && t[i].cust_group == k;
                assert(recs[i].cust_group == k);
            }
        }
    }
}

} // verus!
