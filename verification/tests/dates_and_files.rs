use promo_report::column_data::ColumnData;
use promo_report::data::{file_kind, record_csv_rows, CSVFile, CsvRow, CsvStop, FileKind, LoadError, PertInfo, Record, XLSXFile};
use promo_report::dates::{
    convert_from_date_string_to_excel_format_string, convert_from_date_to_excel_format,
    convert_from_date_to_excel_format_string, convert_from_promo_date_to_excel_format,
    convert_from_xlsx_date_to_formatted_string, convert_to_date, date_from_number, promo_date_range, PromoDateNative,
    SERIAL_MAX, SERIAL_MIN,
};
use promo_report::and_or::AndOrType;
use promo_report::insert_into_promo::PromoMap;
use promo_report::keyed::TextMap;
use promo_report::promo_json::{Part, PromoSection, Promotion, TypeProd};

fn date(year: i32, month: u32, day: u32) -> PromoDateNative {
    PromoDateNative { year, month, day }
}

#[test]
fn serial_numbers_count_days_from_1899_12_30() {
    assert_eq!(convert_to_date(0), date(1899, 12, 30));
    assert_eq!(convert_to_date(1), date(1899, 12, 31));
    assert_eq!(convert_to_date(43952), date(2020, 5, 1));
    assert_eq!(convert_to_date(-1), date(1899, 12, 29));
}

#[test]
fn dates_are_read_as_serial_numbers() {
    assert_eq!(convert_from_date_to_excel_format("05/01/2020"), Ok(43952));
    assert!(convert_from_date_to_excel_format("2020-05-01").is_err());
    assert_eq!(convert_from_date_to_excel_format_string("07/31/2020"), Ok("44043".to_string()));
    assert_eq!(convert_from_date_string_to_excel_format_string("12/30/1899".to_string()), Ok("0".to_string()));
    assert!(convert_from_date_string_to_excel_format_string("not a date".to_string()).is_err());
    assert_eq!(convert_from_promo_date_to_excel_format("5-1-2020".to_string()), Ok(43952));
    assert!(convert_from_promo_date_to_excel_format("05/01/2020".to_string()).is_err());
}

#[test]
fn serial_numbers_are_written_as_month_day_year() {
    assert_eq!(convert_from_xlsx_date_to_formatted_string(43952), "05/01/2020");
    assert_eq!(convert_from_xlsx_date_to_formatted_string(0), "12/30/1899");
}

#[test]
fn reading_back_a_serial_number_gives_it_back() {
    for n in [0i64, 1, 43952, 44043, -700, 2958465] {
        let d = convert_to_date(n);
        assert_eq!(convert_from_promo_date_to_excel_format(d.to_text()), Ok(n));
        assert_eq!(convert_from_date_to_excel_format(&d.to_mdy_text()), Ok(n));
    }
}

#[test]
fn promotion_dates_are_shown_in_several_ways() {
    let d = date(2020, 9, 3);
    assert_eq!(d.to_text(), "9-3-2020");
    assert_eq!(d.to_mdy_text(), "09/03/2020");
    assert_eq!(d.get_month_year(), "Sept 2020");
    assert_eq!(date(2021, 1, 15).get_month_year(), "Jan 2021");
    assert_eq!(date(2021, 12, 15).get_month_year(), "Dec 2021");
    assert_eq!(PromoDateNative::default(), date(2000, 1, 1));
}

#[test]
fn promotion_dates_are_read_in_two_formats() {
    assert_eq!(PromoDateNative::from_text("05/01/2020"), Some(date(2020, 5, 1)));
    assert_eq!(PromoDateNative::from_text("5-1-2020"), Some(date(2020, 5, 1)));
    assert_eq!(PromoDateNative::from_text("2020-05-01"), None);
    assert_eq!(PromoDateNative::from_text("garbage"), None);
}

#[test]
fn a_number_in_a_promotion_file_counts_days_from_1899_12_31() {
    assert_eq!(date_from_number(43951), Some(date(2020, 5, 1)));
    assert_eq!(date_from_number(0), Some(date(1899, 12, 31)));
}

#[test]
fn a_promotion_spans_serial_numbers() {
    assert_eq!(promo_date_range(&date(2020, 5, 1), &date(2020, 7, 31)), Ok((43952, 44043)));
    assert!(promo_date_range(&date(2020, 2, 30), &date(2020, 7, 31)).is_err());
}

fn record(ship_date: &str, customer: &str, part_number: &str, qty: &str, sales: &str) -> Record {
    Record {
        ship_date: ship_date.to_string(),
        cust_group: customer.to_string(),
        order_ship: "SO-7".to_string(),
        part_num_desc: "Widget".to_string(),
        qty: qty.to_string(),
        sales: sales.to_string(),
        part_number1: part_number.to_string(),
    }
}

fn values(row: &Vec<ColumnData>) -> Vec<String> {
    row.iter().map(|c| c.value.clone()).collect()
}

#[test]
fn a_record_is_shown_by_part_number_and_quantity() {
    let r = record("2020-05-02 00:00:00", "Acme", "A1", "4", "$10");
    assert_eq!(r.to_text(), "Item A1 - 4");
    let v = r.make_vec_add_self();
    assert_eq!(v, vec![r.clone()]);
    assert_eq!(r.duplicate(), r);
}

#[test]
fn a_csv_record_becomes_a_purchase_row() {
    let r = record("2020-05-02 13:45:00", "Acme", "A1", "4", "$1,234.50");
    match CsvRow::from_record(&r) {
        CsvRow::Row { customer, row } => {
            assert_eq!(customer, "Acme");
            assert_eq!(values(&row), vec!["Widget", "Acme", "2020-05-02", "A1", "4", "1,234.50", "SO-7"]);
            assert_eq!(row[0].saved_attribs.len(), 0);
        },
        _ => panic!("expected a row"),
    }
}

#[test]
fn a_csv_record_without_date_or_customer_is_skipped() {
    assert!(matches!(CsvRow::from_record(&record("", "Acme", "A1", "4", "1")), CsvRow::Skipped));
    assert!(matches!(CsvRow::from_record(&record("2020-05-02 00:00:00", "", "A1", "4", "1")), CsvRow::Skipped));
    assert!(matches!(CsvRow::from_record(&record("05/02/2020", "Acme", "A1", "4", "1")), CsvRow::UnreadableShipDate));
}

fn template() -> Promotion {
    Promotion {
        start_date: date(2020, 5, 1),
        end_date: date(2020, 7, 31),
        promo_sections: vec![PromoSection {
            promo_parts_still_needed: Vec::new(),
            times_section_qualified: 0,
            part: vec![Part {
                part_type: AndOrType::Or,
                type_prod: vec![TypeProd {
                    qty_needed: 2,
                    part_numbers: vec!["A1".to_string()],
                    found_numbers: Vec::new(),
                    total_qty: 0,
                    times_qualified: 0,
                }],
                qty_parts_still_needed: 0,
                times_parts_qualified: 0,
                type_prods_for_next_promo_needed: Vec::new(),
            }],
        }],
    }
}

#[test]
fn csv_records_are_recorded_per_customer() {
    let records = vec![
        record("2020-05-02 00:00:00", "Acme", "A1", "4", "$8"),
        record("", "Acme", "A1", "100", "$8"),
        record("2020-05-03 00:00:00", "Acme", "A1", "3", "$6"),
        record("2020-05-03 00:00:00", "Bolt", "A1", "1", "$2"),
    ];
    let t = template();
    let mut map: PromoMap = TextMap::new();
    assert_eq!(record_csv_rows(&mut map, &t, &records), Ok(()));
    assert_eq!(map.len(), 2);
    assert_eq!(map.get("Acme").unwrap().promo_sections[0].part[0].type_prod[0].total_qty, 7);
    assert_eq!(map.get("Bolt").unwrap().promo_sections[0].part[0].type_prod[0].total_qty, 1);
    let pert = PertInfo::for_csv(map);
    assert_eq!(pert.data.len(), 2);
    assert_eq!(pert.customer_name_column_index, 1);
    assert_eq!(pert.part_number_column_index, 3);
    assert_eq!(pert.qty_column_index, 4);
    assert_eq!(pert.sales_column_index, 5);
    assert_eq!(pert.ship_date_column_index, 2);
    assert_eq!(pert.order_number_column_index, 6);
    assert_eq!(pert.part_number_desc_column_index, 0);
}

#[test]
fn csv_records_stop_at_an_unreadable_ship_date() {
    let records = vec![
        record("2020-05-02 00:00:00", "Acme", "A1", "4", "$8"),
        record("May 3rd", "Acme", "A1", "3", "$6"),
        record("2020-05-03 00:00:00", "Bolt", "A1", "1", "$2"),
    ];
    let t = template();
    let mut map: PromoMap = TextMap::new();
    assert_eq!(record_csv_rows(&mut map, &t, &records), Err(CsvStop::UnreadableShipDate(1)));
    assert_eq!(map.len(), 1);
    assert_eq!(map.get("Acme").unwrap().promo_sections[0].part[0].type_prod[0].total_qty, 4);
}

#[test]
fn csv_records_stop_before_a_total_overflows() {
    let records = vec![
        record("2020-05-02 00:00:00", "Acme", "A1", "9223372036854775807", "$8"),
        record("2020-05-02 00:00:00", "Acme", "A1", "1", "$8"),
    ];
    let t = template();
    let mut map: PromoMap = TextMap::new();
    assert_eq!(record_csv_rows(&mut map, &t, &records), Err(CsvStop::TotalOverflow(1)));
    assert_eq!(map.get("Acme").unwrap().promo_sections[0].part[0].type_prod[0].total_qty, i64::MAX);
}

#[test]
fn files_are_told_apart_by_extension() {
    assert_eq!(file_kind("orders.csv").ok(), Some(FileKind::Csv));
    assert_eq!(file_kind("dir/export.xlsx").ok(), Some(FileKind::Xlsx));
    match file_kind("notes.txt") {
        Err(e) => {
            assert_eq!(e.message(), "File canno't be of type: txt");
            assert_eq!(e.debug_message(), "File canno't be of type: txt, only looks at extention of file.");
        },
        Ok(_) => panic!("a .txt file is refused"),
    }
    match file_kind("noextension") {
        Err(e) => assert_eq!(e.message(), "File canno't be of type: .csv or .xlsx file name required!"),
        Ok(_) => panic!("a file without extension is refused"),
    }
}

#[test]
fn load_errors_name_the_file_type() {
    let e = LoadError::new("pdf".to_string());
    assert_eq!(e.message(), "File canno't be of type: pdf");
}

#[test]
fn input_files_keep_their_paths() {
    let c = CSVFile::new("a.csv", "p.json");
    assert_eq!(c.csv_path(), "a.csv");
    assert_eq!(c.promo_path(), "p.json");
    let x = XLSXFile::new("b.xlsx", "q.json");
    assert_eq!(x.xlsx_path(), "b.xlsx");
    assert_eq!(x.promo_path(), "q.json");
}

#[test]
fn chrono_range_ends_are_serial_bounds() {
    assert_eq!(convert_to_date(SERIAL_MIN), date(-262143, 1, 1));
    assert_eq!(convert_to_date(SERIAL_MAX), date(262142, 12, 31));
    assert_eq!(convert_to_date(43831), date(2020, 1, 1));
}

#[test]
fn serial_text_reads_back_to_the_serial() {
    for n in [SERIAL_MIN, -1, 0, 59, 60, 61, 43831, 2958465, 2958466, SERIAL_MAX] {
        let text = convert_from_xlsx_date_to_formatted_string(n);
        assert_eq!(convert_from_date_to_excel_format(&text), Ok(n));
        assert_eq!(convert_from_date_to_excel_format_string(&text), Ok(n.to_string()));
    }
}

#[test]
fn a_written_date_reads_back() {
    for d in [date(2020, 2, 29), date(1, 1, 1), date(0, 12, 31), date(9999, 12, 31), date(12345, 6, 7), date(-44, 3, 15)] {
        assert_eq!(PromoDateNative::from_text(&d.to_mdy_text()), Some(d));
    }
    for d in [date(2020, 2, 29), date(1, 1, 1), date(0, 12, 31), date(9999, 12, 31), date(-44, 3, 15)] {
        assert_eq!(PromoDateNative::from_text(&d.to_text()), Some(d));
        let serial = convert_from_promo_date_to_excel_format(d.to_text()).unwrap();
        assert_eq!(convert_to_date(serial), d);
    }
    assert!(d_is_valid_checks());
}

fn d_is_valid_checks() -> bool {
    date(2020, 2, 29).is_valid() && !date(2019, 2, 29).is_valid() && !date(2020, 13, 1).is_valid()
        && !date(262143, 1, 1).is_valid() && date(-262143, 1, 1).is_valid()
}

#[test]
fn extensions_choose_the_reader() {
    use_kind_of_extension();
}

fn use_kind_of_extension() {
    assert_eq!(promo_report::data::kind_of_extension(Some("csv")).ok(), Some(FileKind::Csv));
    assert_eq!(promo_report::data::kind_of_extension(Some("xlsx")).ok(), Some(FileKind::Xlsx));
    assert_eq!(promo_report::data::kind_of_extension(Some("CSV")).err().map(|e| e.message()), Some("File canno't be of type: CSV".to_string()));
    assert_eq!(
        promo_report::data::kind_of_extension(None).err().map(|e| e.message()),
        Some("File canno't be of type: .csv or .xlsx file name required!".to_string())
    );
}
