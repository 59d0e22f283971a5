use promo_report::and_or::AndOrType;
use promo_report::column_data::{AttribMap, ColumnData};
use promo_report::dates::PromoDateNative;
use promo_report::insert_into_promo::PromoMap;
use promo_report::keyed::TextMap;
use promo_report::promo_json::{Part, PromoSection, Promotion, TypeProd};
use promo_report::xlsx::archive::{xlsx_parts, ArchiveError};
use promo_report::xlsx::init::{
    assign_header_columns, record_sheet_row, resolve_shared_string, sheet_row_ready, ship_date_cell,
    ship_date_requirement, ColumnIndices, SharedLookup,
};
use promo_report::xlsx::read_xlsx_share::{gather_rows, ReadRow};
use promo_report::xlsx::read_xlsx_table::{SharedDataShare, Table};
use promo_report::xlsx::requirement_type::{test_requirement, RequirementCheck, RequirementType};
use promo_report::xlsx::share::Share;
use promo_report::xlsx::table_info::TableInfo;

fn headers(names: &[(&str, usize)]) -> TextMap<usize> {
    let mut m: TextMap<usize> = TextMap::new();
    for (name, i) in names {
        m.insert(name.to_string(), *i);
    }
    m
}

#[test]
fn header_columns_are_taken_from_the_header_row() {
    let mut idx = ColumnIndices::new();
    let h = headers(&[
        ("Qty", 4),
        ("Sales", 5),
        ("Related Customer Group", 1),
        ("Part Number", 3),
        ("Order Number", 6),
        ("Ship Date", 2),
        ("Part Number Description", 0),
    ]);
    let messages = assign_header_columns(&mut idx, &h);
    assert!(messages.is_empty());
    assert_eq!(idx.qty_column_index, 4);
    assert_eq!(idx.sales_column_index, 5);
    assert_eq!(idx.customer_name_column_index, 1);
    assert_eq!(idx.part_number_column_index, 3);
    assert_eq!(idx.order_number_column_index, 6);
    assert_eq!(idx.ship_date_column_index, 2);
    assert_eq!(idx.part_number_desc_column_index, 0);
}

#[test]
fn missing_header_columns_are_reported() {
    let mut idx = ColumnIndices::new();
    let h = headers(&[("Qty", 4), ("Related Customer Group", 1), ("Part Number", 3), ("Order Number", 6)]);
    let messages = assign_header_columns(&mut idx, &h);
    assert_eq!(messages, vec!["No 'Sales' header column".to_string(), "No 'Ship Date' header column".to_string()]);
    assert_eq!(idx.qty_column_index, 4);
    assert_eq!(idx.sales_column_index, 0);
    assert_eq!(idx.ship_date_column_index, 0);
}

#[test]
fn shared_string_cells_are_looked_up() {
    let shared = vec!["alpha".to_string(), "beta".to_string()];
    assert_eq!(resolve_shared_string("1", &shared, Some("Part Number")), SharedLookup::Replaced("beta".to_string()));
    assert_eq!(resolve_shared_string("5", &shared, Some("Part Number")), SharedLookup::Kept);
    assert_eq!(
        resolve_shared_string("x", &shared, Some("Qty")),
        SharedLookup::Unreadable("invalid digit found in string for column Qty".to_string())
    );
    assert_eq!(
        resolve_shared_string("", &shared, None),
        SharedLookup::Unreadable("cannot parse integer from empty string".to_string())
    );
}

#[test]
fn ship_date_cells_are_written_as_dates() {
    assert_eq!(ship_date_cell("43952"), Some("05/01/2020".to_string()));
    assert_eq!(ship_date_cell("May 1"), None);
}

#[test]
fn text_conditions_keep_or_ignore_cells() {
    let exact: RequirementType<f64> = RequirementType::StringExactMatch("3M");
    assert_eq!(test_requirement(&exact, "3M", "Vend"), RequirementCheck::Keep);
    assert_eq!(test_requirement(&exact, "3m", "Vend"), RequirementCheck::Ignore);
    let exact_any_case: RequirementType<f64> = RequirementType::StringExactMatchIgnoreCase("3m");
    assert_eq!(test_requirement(&exact_any_case, "3M", "Vend"), RequirementCheck::Keep);
    let starts: RequirementType<f64> = RequirementType::StartsWith("AB");
    assert_eq!(test_requirement(&starts, "ABC", "Part"), RequirementCheck::Keep);
    assert_eq!(test_requirement(&starts, "abc", "Part"), RequirementCheck::Ignore);
    let starts_any_case: RequirementType<f64> = RequirementType::StartsWithIgnoreCase("ab");
    assert_eq!(test_requirement(&starts_any_case, "ABC", "Part"), RequirementCheck::Keep);
    let one_of: RequirementType<f64> = RequirementType::IsOneOfItems(vec!["x", "y"]);
    assert_eq!(test_requirement(&one_of, "y", "Part"), RequirementCheck::Keep);
    assert_eq!(test_requirement(&one_of, "z", "Part"), RequirementCheck::Ignore);
    let contains: RequirementType<f64> = RequirementType::Contains("dge");
    assert_eq!(test_requirement(&contains, "Widget", "Desc"), RequirementCheck::Keep);
    assert_eq!(test_requirement(&contains, "WIDGET", "Desc"), RequirementCheck::Ignore);
    let contains_any_case: RequirementType<f64> = RequirementType::ContainsIgnoreCase("dge");
    assert_eq!(test_requirement(&contains_any_case, "WIDGET", "Desc"), RequirementCheck::Keep);
    let greater: RequirementType<f64> = RequirementType::IsValueGreaterThan(1.5);
    assert_eq!(test_requirement(&greater, "2", "Sales"), RequirementCheck::CompareAsNumber);
    let less: RequirementType<f64> = RequirementType::IsValueLessThan(1.5);
    assert_eq!(test_requirement(&less, "2", "Sales"), RequirementCheck::CompareAsNumber);
}

#[test]
fn a_date_range_reads_serial_numbers() {
    let range: RequirementType<f64> = RequirementType::DateRangeMatch(10, 20);
    assert_eq!(test_requirement(&range, "10", "Ship Date"), RequirementCheck::Keep);
    assert_eq!(test_requirement(&range, "20", "Ship Date"), RequirementCheck::Keep);
    assert_eq!(test_requirement(&range, "21", "Ship Date"), RequirementCheck::Ignore);
    assert_eq!(test_requirement(&range, "9", "Ship Date"), RequirementCheck::Ignore);
    assert_eq!(
        test_requirement(&range, "5/1/2020", "Ship Date"),
        RequirementCheck::DropWithError("invalid digit found in string for column Ship Date".to_string())
    );
}

fn date(year: i32, month: u32, day: u32) -> PromoDateNative {
    PromoDateNative { year, month, day }
}

fn promotion() -> Promotion {
    Promotion {
        start_date: date(2020, 5, 1),
        end_date: date(2020, 7, 31),
        promo_sections: vec![PromoSection {
            promo_parts_still_needed: Vec::new(),
            times_section_qualified: 0,
            part: vec![Part {
                part_type: AndOrType::And,
                type_prod: vec![TypeProd {
                    qty_needed: 2,
                    part_numbers: vec!["A1".to_string()],
                    found_numbers: Vec::new(),
                    total_qty: 0,
                    times_qualified: 0,
                }],
                qty_parts_still_needed: 0,
                times_parts_qualified: 0,
                type_prods_for_next_promo_needed: Vec::new(),
            }],
        }],
    }
}

#[test]
fn the_ship_date_condition_spans_the_promotion() {
    match ship_date_requirement::<f64>(&promotion()) {
        Ok(RequirementType::DateRangeMatch(a, b)) => assert_eq!((a, b), (43952, 44043)),
        _ => panic!("expected a date range"),
    }
    let mut bad = promotion();
    bad.end_date = date(2020, 2, 31);
    assert!(ship_date_requirement::<f64>(&bad).is_err());
}

#[test]
fn a_new_share_checks_the_ship_date() {
    let share: Share<f64> = match Share::new(promotion()) {
        Ok(s) => s,
        Err(_) => panic!("the promotion dates read back"),
    };
    assert_eq!(share.total_qty, 0);
    assert_eq!(share.complete_promo.len(), 0);
    assert_eq!(share.requirements.len(), 1);
    assert_eq!(share.cell_check("Ship Date", "43960"), RequirementCheck::Keep);
    assert_eq!(share.cell_check("Ship Date", "50000"), RequirementCheck::Ignore);
    assert_eq!(share.cell_check("Qty", "anything"), RequirementCheck::Keep);
    let mut bad = promotion();
    bad.start_date = date(2020, 13, 1);
    assert!(Share::<f64>::new(bad).is_err());
}

#[test]
fn finished_cells_follow_the_last_type_attribute() {
    let mut share: Share<f64> = match Share::new(promotion()) {
        Ok(s) => s,
        Err(_) => panic!("the promotion dates read back"),
    };
    share.shared_strings = vec!["Acme".to_string()];
    let mut cell = ColumnData::new("0".to_string(), AttribMap::new());
    share.note_cell_type(&mut cell, Some("s"));
    assert_eq!(share.last_col_type_attrib, "s");
    assert_eq!(cell.saved_attribs.get("t").map(|s| s.as_str()), Some("s"));
    assert_eq!(share.cell_value("Related Customer Group", "0"), SharedLookup::Replaced("Acme".to_string()));
    share.note_cell_type(&mut cell, None);
    assert_eq!(share.last_col_type_attrib, "s");
    share.note_cell_type(&mut cell, Some("str"));
    assert_eq!(cell.saved_attribs.get("t").map(|s| s.as_str()), Some("s"));
    assert_eq!(share.cell_value("Ship Date", "43952"), SharedLookup::Replaced("05/01/2020".to_string()));
    assert_eq!(share.cell_value("Ship Date", "soon"), SharedLookup::Kept);
    assert_eq!(share.cell_value("Qty", "43952"), SharedLookup::Kept);
}

fn sheet_row(customer: &str, part_number: &str, qty: &str) -> Vec<ColumnData> {
    ["Widget", customer, "43952", part_number, qty, "9.5", "SO-1"]
        .iter()
        .map(|s| ColumnData::new(s.to_string(), AttribMap::new()))
        .collect()
}

fn csv_like_columns() -> ColumnIndices {
    let mut idx = ColumnIndices::new();
    idx.customer_name_column_index = 1;
    idx.part_number_column_index = 3;
    idx.qty_column_index = 4;
    idx
}

#[test]
fn complete_sheet_rows_are_recorded() {
    let promo = promotion();
    let idx = csv_like_columns();
    let mut map: PromoMap = TextMap::new();
    let mut errors: Vec<String> = Vec::new();
    let mut total: i64 = 0;
    let r1 = sheet_row("Acme", "A1", "3");
    assert!(sheet_row_ready(&map, &promo, total, &r1, &idx));
    record_sheet_row(&mut map, &promo, &mut errors, &mut total, &r1, &idx);
    let r2 = sheet_row("Acme", "Z9", "4");
    assert!(sheet_row_ready(&map, &promo, total, &r2, &idx));
    record_sheet_row(&mut map, &promo, &mut errors, &mut total, &r2, &idx);
    assert_eq!(total, 7);
    assert!(errors.is_empty());
    assert_eq!(map.get("Acme").unwrap().promo_sections[0].part[0].type_prod[0].total_qty, 3);
}

#[test]
fn a_sheet_row_that_cannot_be_recorded_is_refused() {
    let promo = promotion();
    let idx = csv_like_columns();
    let map: PromoMap = TextMap::new();
    assert!(!sheet_row_ready(&map, &promo, 0, &sheet_row("Acme", "A1", "three"), &idx));
    assert!(!sheet_row_ready(&map, &promo, i64::MAX, &sheet_row("Acme", "A1", "1"), &idx));
    let mut far = csv_like_columns();
    far.qty_column_index = 40;
    assert!(!sheet_row_ready(&map, &promo, 0, &sheet_row("Acme", "A1", "1"), &far));
}

#[test]
fn read_rows_are_gathered_in_order() {
    let rows = vec![
        ReadRow::Valid(vec!["a".to_string(), "b".to_string()]),
        ReadRow::Invalid("bad cell".to_string()),
        ReadRow::Skipped,
        ReadRow::Valid(vec!["c".to_string()]),
    ];
    let (values, errors) = gather_rows(&rows);
    assert_eq!(values, vec!["a".to_string(), "b".to_string(), "c".to_string()]);
    assert_eq!(errors, vec!["Error: bad cell".to_string()]);
}

#[test]
fn the_table_tag_names_the_table() {
    let mut sh = SharedDataShare::new();
    assert_eq!(sh.note_table_tag(Some("Table1"), None, Some("A1:G20")), Some("A1:G20".to_string()));
    assert_eq!(sh.note_table_tag(Some("Other"), Some("Orders"), None), None);
    assert!(!sh.note_column_count(true, Some("7")));
    assert!(!sh.note_column_count(false, Some("seven")));
    assert!(!sh.note_column_count(false, None));
    assert!(sh.note_column_count(false, Some("7")));
    let table = sh.into_table(vec!["Qty".to_string(), "Sales".to_string()]);
    assert_eq!(table.table_info.table_name, "Orders");
    assert_eq!(table.table_info.table_dimensions, "A1:G20");
    assert_eq!(table.table_columns, vec!["Qty".to_string(), "Sales".to_string()]);
}

#[test]
fn tables_are_shown_with_their_columns() {
    let info = TableInfo { table_dimensions: "A1:B3".to_string(), table_name: "T".to_string() };
    assert_eq!(info.to_text(), "Table Name: T\r\nDimensions: A1:B3");
    let table = Table { table_columns: vec!["a".to_string(), "b\"c".to_string()], table_info: info };
    assert_eq!(table.to_text(), "Table Info: Table Name: T\r\nDimensions: A1:B3\r\nColumns: [\"a\", \"b\\\"c\"]");
    let empty = TableInfo::empty();
    assert_eq!(empty.to_text(), "Table Name: \r\nDimensions: ");
}

fn archive(entries: &[(&str, &[u8])]) -> Vec<u8> {
    let mut writer = zip::ZipWriter::new(std::io::Cursor::new(Vec::new()));
    for (name, bytes) in entries {
        let options = zip::write::FileOptions::default().compression_method(zip::CompressionMethod::Stored);
        writer.start_file(*name, options).unwrap();
        std::io::Write::write_all(&mut writer, bytes).unwrap();
    }
    writer.finish().unwrap().into_inner()
}

#[test]
fn the_three_texts_are_taken_from_the_archive() {
    let bytes = archive(&[
        ("xl/worksheets/sheet1.xml", b"<worksheet/>"),
        ("xl/sharedStrings.xml", b"<sst/>"),
        ("xl/tables/table1.xml", b"<table/>"),
    ]);
    match xlsx_parts(&bytes) {
        Ok(p) => {
            assert_eq!(p.table, "<table/>");
            assert_eq!(p.shared, "<sst/>");
            assert_eq!(p.sheet, "<worksheet/>");
        }
        Err(e) => panic!("{:?}", e),
    }
    let no_shared = archive(&[("xl/tables/table1.xml", b"<table/>"), ("xl/worksheets/sheet1.xml", b"<w/>")]);
    assert_eq!(xlsx_parts(&no_shared).err(), Some(ArchiveError::MissingEntry));
    let bad_text = archive(&[("xl/tables/table1.xml", &[0xff, 0xfe, 0x80])]);
    assert_eq!(xlsx_parts(&bad_text).err(), Some(ArchiveError::UnreadableEntry));
    assert_eq!(xlsx_parts(&b"not a zip".to_vec()).err(), Some(ArchiveError::NotAnArchive));
}

#[test]
fn an_archive_with_bytes_in_front_is_read() {
    let mut bytes = b"some bytes before the archive".to_vec();
    bytes.extend(archive(&[
        ("xl/tables/table1.xml", b"<t/>"),
        ("xl/sharedStrings.xml", b"<s/>"),
        ("xl/worksheets/sheet1.xml", b"<w/>"),
    ]));
    match xlsx_parts(&bytes) {
        Ok(p) => assert_eq!((p.table.as_str(), p.shared.as_str(), p.sheet.as_str()), ("<t/>", "<s/>", "<w/>")),
        Err(e) => panic!("{:?}", e),
    }
}
