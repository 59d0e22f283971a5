use promo_report::and_or::AndOrType;
use promo_report::column_data::{AttribMap, ColumnData};
use promo_report::dates::PromoDateNative;
use promo_report::insert_into_promo::{can_insert_into_promo, contains_text, insert_into_promo, promotion_accepts_row, Pas, PromoMap};
use promo_report::keyed::TextMap;
use promo_report::missing_report::{
    amount_missing_is_defined, can_display_missing_report, display_missing_report, display_vec_of_strings_as_csv,
    get_amount_missing_for_next_promo,
};
use promo_report::modify_promo::{can_complete_promo, complete_promo, qualified_times_of};
use promo_report::promo_json::{Part, PromoSection, Promotion, TypeProd};
use promo_report::text::ParseIntError;

fn date(year: i32, month: u32, day: u32) -> PromoDateNative {
    PromoDateNative { year, month, day }
}

fn group(part_numbers: &[&str], qty_needed: i64) -> TypeProd {
    TypeProd {
        qty_needed,
        part_numbers: part_numbers.iter().map(|s| s.to_string()).collect(),
        found_numbers: Vec::new(),
        total_qty: 0,
        times_qualified: 0,
    }
}

fn part(kind: AndOrType, groups: Vec<TypeProd>) -> Part {
    Part {
        part_type: kind,
        type_prod: groups,
        qty_parts_still_needed: 0,
        times_parts_qualified: 0,
        type_prods_for_next_promo_needed: Vec::new(),
    }
}

fn promotion(parts: Vec<Part>) -> Promotion {
    Promotion {
        start_date: date(2020, 5, 1),
        end_date: date(2020, 7, 31),
        promo_sections: vec![PromoSection { promo_parts_still_needed: Vec::new(), times_section_qualified: 0, part: parts }],
    }
}

/// A purchase row laid out as CSV rows are: the part number in cell 3 and
/// the quantity in cell 4.
fn row(customer: &str, part_number: &str, qty: &str) -> Vec<ColumnData> {
    ["desc", customer, "2020-05-02", part_number, qty, "10.00", "SO-1"]
        .iter()
        .map(|s| ColumnData::new(s.to_string(), AttribMap::new()))
        .collect()
}

fn record(map: &mut PromoMap, template: &Promotion, customer: &str, part_number: &str, qty: &str) -> Result<(), Vec<ParseIntError>> {
    let cells = row(customer, part_number, qty);
    let pass = Pas { item_name: &cells, part_number_index: 3, qty_index: 4 };
    assert!(can_insert_into_promo(map, customer, template, &pass));
    insert_into_promo(map, customer.to_string(), template, &pass)
}

fn and_template() -> Promotion {
    promotion(vec![part(AndOrType::And, vec![group(&["A1"], 2), group(&["B1", "B2"], 3)])])
}

#[test]
fn a_first_purchase_starts_from_the_template() {
    let template = and_template();
    let mut map: PromoMap = TextMap::new();
    assert_eq!(record(&mut map, &template, "Acme", "A1", "5"), Ok(()));
    assert_eq!(map.len(), 1);
    let promo = map.get("Acme").unwrap();
    let groups = &promo.promo_sections[0].part[0].type_prod;
    assert_eq!(groups[0].total_qty, 5);
    assert_eq!(groups[0].found_numbers.len(), 1);
    assert_eq!(groups[0].found_numbers[0][3].value, "A1");
    assert_eq!(groups[1].total_qty, 0);
    assert_eq!(groups[1].found_numbers.len(), 0);
    assert_eq!(template.promo_sections[0].part[0].type_prod[0].total_qty, 0);
}

#[test]
fn quantities_of_one_customer_add_up() {
    let template = and_template();
    let mut map: PromoMap = TextMap::new();
    assert_eq!(record(&mut map, &template, "Acme", "B1", "4"), Ok(()));
    assert_eq!(record(&mut map, &template, "Acme", "B2", "3"), Ok(()));
    assert_eq!(record(&mut map, &template, "Zed", "B2", "1"), Ok(()));
    let acme = &map.get("Acme").unwrap().promo_sections[0].part[0].type_prod[1];
    assert_eq!(acme.total_qty, 7);
    assert_eq!(acme.found_numbers.len(), 2);
    let zed = &map.get("Zed").unwrap().promo_sections[0].part[0].type_prod[1];
    assert_eq!(zed.total_qty, 1);
}

#[test]
fn an_unreadable_quantity_is_an_error_for_a_known_customer() {
    let template = and_template();
    let mut map: PromoMap = TextMap::new();
    assert_eq!(record(&mut map, &template, "Acme", "A1", "2"), Ok(()));
    assert_eq!(record(&mut map, &template, "Acme", "A1", "two"), Err(vec![ParseIntError::InvalidDigit]));
    let g = &map.get("Acme").unwrap().promo_sections[0].part[0].type_prod[0];
    assert_eq!(g.total_qty, 2);
    assert_eq!(g.found_numbers.len(), 2);
}

#[test]
fn an_unreadable_quantity_is_ignored_for_a_new_customer() {
    let template = and_template();
    let mut map: PromoMap = TextMap::new();
    assert_eq!(record(&mut map, &template, "Acme", "A1", ""), Ok(()));
    let g = &map.get("Acme").unwrap().promo_sections[0].part[0].type_prod[0];
    assert_eq!(g.total_qty, 0);
    assert_eq!(g.found_numbers.len(), 1);
}

#[test]
fn a_part_number_no_group_takes_changes_nothing() {
    let template = and_template();
    let mut map: PromoMap = TextMap::new();
    assert_eq!(record(&mut map, &template, "Acme", "Q9", "5"), Ok(()));
    assert_eq!(record(&mut map, &template, "Acme", "Q9", "oops"), Ok(()));
    let promo = map.get("Acme").unwrap();
    for g in &promo.promo_sections[0].part[0].type_prod {
        assert_eq!(g.total_qty, 0);
        assert_eq!(g.found_numbers.len(), 0);
    }
}

#[test]
fn a_row_whose_cells_are_missing_is_not_accepted() {
    let template = and_template();
    let cells = row("Acme", "A1", "1");
    let pass = Pas { item_name: &cells, part_number_index: 9, qty_index: 4 };
    assert!(!promotion_accepts_row(&template, &pass));
    let pass = Pas { item_name: &cells, part_number_index: 3, qty_index: 4 };
    assert!(promotion_accepts_row(&template, &pass));
    let mut full = and_template();
    full.promo_sections[0].part[0].type_prod[0].total_qty = i64::MAX;
    assert!(!promotion_accepts_row(&full, &pass));
}

#[test]
fn contains_text_looks_for_an_equal_string() {
    let list = vec!["A1".to_string(), "B1".to_string()];
    assert!(contains_text(&list, &"B1".to_string()));
    assert!(!contains_text(&list, &"B".to_string()));
}

#[test]
fn qualified_times_rounds_the_quotient_down() {
    assert_eq!(qualified_times_of(7, 2), 3);
    assert_eq!(qualified_times_of(6, 2), 3);
    assert_eq!(qualified_times_of(1, 2), 0);
    assert_eq!(qualified_times_of(-7, 2), -4);
    assert_eq!(qualified_times_of(7, -2), -4);
    assert_eq!(qualified_times_of(-7, -2), 3);
    assert_eq!(qualified_times_of(5, 0), i64::MAX);
    assert_eq!(qualified_times_of(-5, 0), i64::MIN);
    assert_eq!(qualified_times_of(0, 0), 0);
    assert_eq!(qualified_times_of(i64::MIN, -1), i64::MAX);
    for (total, needed) in [(7i64, 2i64), (0, 5), (-9, 4), (100, 7)] {
        let t = qualified_times_of(total, needed);
        assert!(t * needed <= total && total < (t + 1) * needed);
    }
}

fn completed(template: &Promotion, purchases: &[(&str, &str)]) -> (PromoMap, Result<(), Vec<ParseIntError>>) {
    let mut map: PromoMap = TextMap::new();
    for (pn, qty) in purchases {
        assert_eq!(record(&mut map, template, "Acme", pn, qty), Ok(()));
    }
    assert!(can_complete_promo(&map));
    let r = complete_promo(&mut map);
    (map, r)
}

#[test]
fn an_and_part_counts_its_least_group() {
    let (map, r) = completed(&and_template(), &[("A1", "5"), ("B1", "7")]);
    assert_eq!(r, Ok(()));
    let section = &map.get("Acme").unwrap().promo_sections[0];
    let p = &section.part[0];
    assert_eq!(p.type_prod[0].times_qualified, 2);
    assert_eq!(p.type_prod[1].times_qualified, 2);
    assert_eq!(p.times_parts_qualified, 2);
    assert_eq!(p.type_prods_for_next_promo_needed, vec![0, 1]);
    assert_eq!(section.times_section_qualified, 2);
    assert_eq!(section.promo_parts_still_needed, vec![0]);
}

#[test]
fn an_and_part_at_zero_keeps_its_count() {
    let mut template = and_template();
    template.promo_sections[0].part[0].times_parts_qualified = 9;
    let (map, r) = completed(&template, &[("A1", "5")]);
    assert_eq!(r, Ok(()));
    let p = &map.get("Acme").unwrap().promo_sections[0].part[0];
    assert_eq!(p.times_parts_qualified, 9);
    assert_eq!(p.type_prods_for_next_promo_needed, vec![1]);
}

#[test]
fn an_or_part_adds_its_groups() {
    let template = promotion(vec![part(AndOrType::Or, vec![group(&["A1"], 2), group(&["B1"], 3)])]);
    let (map, r) = completed(&template, &[("A1", "5"), ("B1", "7")]);
    assert_eq!(r, Ok(()));
    let p = &map.get("Acme").unwrap().promo_sections[0].part[0];
    assert_eq!(p.times_parts_qualified, 4);
    assert_eq!(p.type_prods_for_next_promo_needed, vec![0, 1]);
}

#[test]
fn an_any_part_divides_the_sum_of_its_groups() {
    let template = promotion(vec![part(AndOrType::Any(3), vec![group(&["A1"], 1), group(&["B1"], 1)])]);
    let (map, r) = completed(&template, &[("A1", "4"), ("B1", "3")]);
    assert_eq!(r, Ok(()));
    let p = &map.get("Acme").unwrap().promo_sections[0].part[0];
    assert_eq!(p.times_parts_qualified, 2);
}

#[test]
fn a_single_part_with_two_groups_is_an_error() {
    let template = promotion(vec![part(AndOrType::Single, vec![group(&["A1"], 1), group(&["B1"], 1)])]);
    let (map, r) = completed(&template, &[("A1", "4")]);
    assert_eq!(r, Err(vec![ParseIntError::InvalidDigit]));
    let p = &map.get("Acme").unwrap().promo_sections[0].part[0];
    assert_eq!(p.type_prod[0].times_qualified, 4);
    assert_eq!(p.times_parts_qualified, 0);
}

#[test]
fn a_single_part_counts_its_group() {
    let template = promotion(vec![part(AndOrType::Single, vec![group(&["A1"], 2)])]);
    let (map, r) = completed(&template, &[("A1", "5")]);
    assert_eq!(r, Ok(()));
    let p = &map.get("Acme").unwrap().promo_sections[0].part[0];
    assert_eq!(p.times_parts_qualified, 2);
    assert_eq!(p.type_prods_for_next_promo_needed, vec![0]);
}

#[test]
fn a_section_counts_its_least_part() {
    let template = promotion(vec![
        part(AndOrType::Single, vec![group(&["A1"], 1)]),
        part(AndOrType::Single, vec![group(&["B1"], 1)]),
    ]);
    let (map, r) = completed(&template, &[("A1", "4"), ("B1", "3")]);
    assert_eq!(r, Ok(()));
    let section = &map.get("Acme").unwrap().promo_sections[0];
    assert_eq!(section.times_section_qualified, 3);
    assert_eq!(section.promo_parts_still_needed, vec![1]);
    for p in &section.part {
        assert!(section.times_section_qualified <= p.times_parts_qualified);
    }
}

#[test]
fn amount_missing_reaches_the_next_multiple() {
    assert_eq!(get_amount_missing_for_next_promo(5, 3), 2);
    assert_eq!(get_amount_missing_for_next_promo(5, 5), 5);
    assert_eq!(get_amount_missing_for_next_promo(5, 7), 3);
    assert_eq!(get_amount_missing_for_next_promo(3, 0), 3);
    assert_eq!(get_amount_missing_for_next_promo(2, 10), 2);
    assert!(amount_missing_is_defined(5, 7));
    assert!(!amount_missing_is_defined(0, 7));
    for (needed, claimed) in [(5i64, 3i64), (5, 7), (4, 8), (1, 0)] {
        let r = get_amount_missing_for_next_promo(needed, claimed);
        assert!(0 < r && r <= needed);
        assert_eq!((claimed + r) % needed, 0);
    }
}

#[test]
fn part_numbers_are_joined_with_space_comma() {
    let v = vec!["A1".to_string(), "B1".to_string(), "C1".to_string()];
    assert_eq!(display_vec_of_strings_as_csv(&v), "A1 ,B1 ,C1");
    assert_eq!(display_vec_of_strings_as_csv(&vec!["A1".to_string()]), "A1");
    assert_eq!(display_vec_of_strings_as_csv(&Vec::new()), "");
}

#[test]
fn the_report_lists_customers_in_order_of_name() {
    let template = and_template();
    let mut map: PromoMap = TextMap::new();
    assert_eq!(record(&mut map, &template, "Zed", "A1", "1"), Ok(()));
    assert_eq!(record(&mut map, &template, "Acme", "A1", "5"), Ok(()));
    assert_eq!(record(&mut map, &template, "Acme", "B1", "7"), Ok(()));
    assert!(can_complete_promo(&map));
    assert_eq!(complete_promo(&mut map), Ok(()));
    assert!(can_display_missing_report(&map));
    let report = display_missing_report(&map);
    let expected = [
        "For Customer: Acme\r\n",
        "Qualified 2 times for Promo 1\r\n",
        "To get another you need to purchase:\r\n",
        "1 of a ( A1 )\r\n",
        "2 of a ( B1 ,B2 )\r\n",
        "\r\n",
        "For Customer: Zed\r\n",
        "Qualified 0 times for Promo 1\r\n",
        "To get the promo you need to purchase:\r\n",
        "1 of a ( A1 )\r\n",
        "3 of a ( B1 ,B2 )\r\n",
        "\r\n",
    ].concat();
    assert_eq!(report, expected);
}

#[test]
fn an_or_part_is_reported_with_or_between_groups() {
    let template = promotion(vec![part(AndOrType::Or, vec![group(&["A1"], 2), group(&["B1"], 3)])]);
    let (map, r) = completed(&template, &[("A1", "1")]);
    assert_eq!(r, Ok(()));
    let report = display_missing_report(&map);
    let expected = [
        "For Customer: Acme\r\n",
        "Qualified 0 times for Promo 1\r\n",
        "To get the promo you need to purchase:\r\n",
        "1 of a ( A1 ) Or 3 of a ( B1 )\r\n",
        "\r\n",
    ].concat();
    assert_eq!(report, expected);
}

#[test]
fn an_empty_map_gives_an_empty_report() {
    let map: PromoMap = TextMap::new();
    assert_eq!(display_missing_report(&map), "");
}

#[test]
fn copies_are_equal_in_content() {
    let mut template = and_template();
    template.promo_sections[0].part[0].type_prod[0].found_numbers.push(row("Acme", "A1", "1"));
    let copy = template.duplicate();
    assert_eq!(copy.start_date, template.start_date);
    assert_eq!(copy.promo_sections[0].part[0].type_prod[0].part_numbers, vec!["A1".to_string()]);
    assert_eq!(copy.promo_sections[0].part[0].type_prod[0].found_numbers[0][1].value, "Acme");
}

#[test]
fn working_out_parts_twice_changes_no_part() {
    let template = promotion(vec![
        part(AndOrType::And, vec![group(&["A1"], 2), group(&["B1"], 3)]),
        part(AndOrType::Any(2), vec![group(&["C1"], 1)]),
    ]);
    let (mut map, r) = completed(&template, &[("A1", "5"), ("B1", "7"), ("C1", "9")]);
    assert_eq!(r, Ok(()));
    let first: Vec<(i64, Vec<i64>, Vec<i64>)> = map.get("Acme").unwrap().promo_sections[0]
        .part
        .iter()
        .map(|p| (p.times_parts_qualified, p.type_prods_for_next_promo_needed.clone(), p.type_prod.iter().map(|t| t.times_qualified).collect()))
        .collect();
    assert!(can_complete_promo(&map));
    assert_eq!(complete_promo(&mut map), Ok(()));
    let second: Vec<(i64, Vec<i64>, Vec<i64>)> = map.get("Acme").unwrap().promo_sections[0]
        .part
        .iter()
        .map(|p| (p.times_parts_qualified, p.type_prods_for_next_promo_needed.clone(), p.type_prod.iter().map(|t| t.times_qualified).collect()))
        .collect();
    assert_eq!(first, second);
}
