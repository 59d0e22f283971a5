//! The report of what each customer still has to buy for the next
//! qualification of each promotion section.
use vstd::prelude::*;
use crate::and_or::AndOrType;
use crate::insert_into_promo::PromoMap;
use crate::promo_json::{texts_view, Part, PartView, PromoSection, PromoSectionView, PromotionView};
use crate::text::{in_i64, i64_to_text, u64_to_text, int_text, nat_text, spec_parse_i64, lemma_parse_i64_of_text, ParseIntError};

verus! {

/// Integer division rounded toward zero, as Rust's `/` on integers.
pub open spec fn trunc_div(a: int, b: int) -> int {
    if a >= 0 {
        if b > 0 { a / b } else { -(a / (-b)) }
    } else {
        if b > 0 { -((-a) / b) } else { (-a) / (-b) }
    }
}

/// How many more units of a group are needed for its next qualification,
/// given the units needed per qualification and the units bought.
pub open spec fn amount_missing(needed: int, claimed: int) -> int {
    if claimed < needed {
        needed - claimed
    } else if claimed == needed {
        needed
    } else {
        (trunc_div(claimed, needed) + 1) * needed - claimed
    }
}

/// Working out `amount_missing` in `i64` neither divides by zero nor leaves
/// the `i64` range.
pub open spec fn amount_missing_defined(needed: i64, claimed: i64) -> bool {
    if claimed < needed {
        in_i64(needed - claimed)
    } else if claimed == needed {
        true
    } else {
        let q = trunc_div(claimed as int, needed as int);
        &&& needed != 0
        &&& in_i64(q + 1)
        &&& in_i64((q + 1) * needed)
        &&& in_i64((q + 1) * needed - claimed)
    }
}

/// Truncating division of `a` by a non-zero `b` whose quotient is an `i64`.
fn trunc_div_i64(a: i64, b: i64) -> (q: i64)
    requires
        b != 0,
        in_i64(trunc_div(a as int, b as int)),
    ensures
        q == trunc_div(a as int, b as int),
{
    let ua: u128 = if a >= 0 { a as u128 } else { (-(a as i128)) as u128 };
    let ub: u128 = if b >= 0 { b as u128 } else { (-(b as i128)) as u128 };
    let m: u128 = ua / ub;
    assert(m <= ua) by {
        vstd::arithmetic::div_mod::lemma_div_is_ordered_by_denominator(ua as int, 1, ub as int);
        vstd::arithmetic::div_mod::lemma_div_basics(ua as int);
    }
    if (a >= 0) == (b > 0) {
        m as i64
    } else {
        (-(m as i128)) as i64
    }
}

/// How many more units of a group are needed for its next qualification
/// (see `amount_missing`).
pub fn get_amount_missing_for_next_promo(qty_needed: i64, qty_claimed: i64) -> (r: i64)
    requires
        amount_missing_defined(qty_needed, qty_claimed),
    ensures
        r == amount_missing(qty_needed as int, qty_claimed as int),
{
    if qty_claimed < qty_needed {
        qty_needed - qty_claimed
    } else if qty_claimed == qty_needed {
        qty_needed
    } else {
        let promo_count_ceiling = trunc_div_i64(qty_claimed, qty_needed) + 1;
        let remaining_needed = promo_count_ceiling * qty_needed - qty_claimed;
        remaining_needed
    }
}

/// For a positive quantity needed and a non-negative quantity bought, the
/// amount missing is the least positive amount that brings the quantity
/// bought to a multiple of the quantity needed.
pub proof fn lemma_amount_missing_next_multiple(needed: int, claimed: int)
    requires
        needed > 0,
        claimed >= 0,
    ensures
        0 < amount_missing(needed, claimed) <= needed,
        (claimed + amount_missing(needed, claimed)) % needed == 0,
        forall|r: int| 0 < r < amount_missing(needed, claimed) ==> #[trigger] ((claimed + r) % needed) != 0,
{
    let a = amount_missing(needed, claimed);
    let q = claimed / needed;
    vstd::arithmetic::div_mod::lemma_fundamental_div_mod(claimed, needed);
    let m = claimed % needed;
    assert(claimed == needed * q + m);
    assert(0 <= m < needed);
    if claimed < needed {
        assert(a == needed - claimed);
        vstd::arithmetic::div_mod::lemma_mod_self_0(needed);
    } else if claimed == needed {
        assert(a == needed);
        assert(claimed + a == 2 * needed);
        vstd::arithmetic::div_mod::lemma_mod_multiples_basic(2, needed);
        vstd::arithmetic::div_mod::lemma_mod_self_0(needed);
        assert(m == 0);
    } else {
        assert(trunc_div(claimed, needed) == q);
        assert(a == (q + 1) * needed - claimed);
        assert((q + 1) * needed == needed * q + needed) by (nonlinear_arith);
        assert(a == needed - m);
        vstd::arithmetic::div_mod::lemma_mod_multiples_basic(q + 1, needed);
        assert(claimed + a == (q + 1) * needed);
    }
    assert(claimed >= needed ==> a == needed - m);
    assert forall|r: int| 0 < r < a implies #[trigger] ((claimed + r) % needed) != 0 by {
        vstd::arithmetic::div_mod::lemma_fundamental_div_mod(claimed + r, needed);
        let q2 = (claimed + r) / needed;
        let m2 = (claimed + r) % needed;
        if m2 == 0 {
            assert(claimed + r == needed * q2);
            if claimed < needed {
                assert(0 < needed * q2 < needed);
                if q2 <= 0 {
                    assert(needed * q2 <= 0) by (nonlinear_arith) requires needed > 0, q2 <= 0;
                } else {
                    assert(needed * q2 >= needed) by (nonlinear_arith) requires needed > 0, q2 >= 1;
                }
            } else {
                assert(needed * q < needed * q2 < needed * q + needed);
                if q2 <= q {
                    assert(needed * q2 <= needed * q) by (nonlinear_arith) requires needed > 0, q2 <= q;
                } else {
                    assert(needed * q2 >= needed * q + needed) by (nonlinear_arith) requires needed > 0, q2 >= q + 1;
                }
            }
        }
    }
}


/// What is missing of one product group: its part numbers and the units.
struct MissingPartNumber {
    pub missing_part_numbers: Vec<String>,
    pub amount_needed: i64,
}

/// What is missing of one part of a section: how its groups combine, and
/// what is missing of each group the next qualification needs.
struct NeededSections {
    pub missing_part_numbers: Vec<(AndOrType, Vec<MissingPartNumber>)>,
}

/// A group's missing units, as part numbers and amount.
pub type MissingView = (Seq<Seq<char>>, i64);

/// The missing groups of one part, with how they combine.
pub type NeededView = Seq<(AndOrType, Seq<MissingView>)>;

spec fn missing_view(m: MissingPartNumber) -> MissingView {
    (texts_view(m.missing_part_numbers@), m.amount_needed)
}

spec fn needed_view(n: NeededSections) -> NeededView {
    n.missing_part_numbers@.map_values(|e: (AndOrType, Vec<MissingPartNumber>)|
        (e.0, e.1@.map_values(|m: MissingPartNumber| missing_view(m))))
}

/// What is missing of the `k`-th group that the part's next qualification
/// needs.
pub open spec fn missing_of_group(part: PartView, k: int) -> MissingView {
    let t = part.type_prod[part.type_prods_for_next_promo_needed[k] as int];
    (t.part_numbers, amount_missing(t.qty_needed as int, t.total_qty as int) as i64)
}

/// What is missing of every group the part's next qualification needs.
pub open spec fn missing_of_part(part: PartView) -> Seq<MissingView> {
    Seq::new(part.type_prods_for_next_promo_needed.len(), |k: int| missing_of_group(part, k))
}

/// For each part still needed by the section, in order, one entry: how the
/// part's groups combine and what is missing of them.
pub open spec fn section_report(s: PromoSectionView) -> Seq<NeededView> {
    Seq::new(s.promo_parts_still_needed.len(), |i: int| {
        let part = s.part[s.promo_parts_still_needed[i] as int];
        seq![(part.part_type, missing_of_part(part))]
    })
}

/// Every index the report follows is in range, and every amount missing
/// can be worked out in `i64`.
pub open spec fn part_report_defined(part: PartView) -> bool {
    forall|k: int| 0 <= k < part.type_prods_for_next_promo_needed.len() ==> {
        let i = #[trigger] part.type_prods_for_next_promo_needed[k];
        &&& 0 <= i < part.type_prod.len()
        &&& amount_missing_defined(part.type_prod[i as int].qty_needed, part.type_prod[i as int].total_qty)
    }
}

pub open spec fn section_report_defined(s: PromoSectionView) -> bool {
    forall|i: int| 0 <= i < s.promo_parts_still_needed.len() ==> {
        let p = #[trigger] s.promo_parts_still_needed[i];
        &&& p < s.part.len()
        &&& part_report_defined(s.part[p as int])
    }
}

fn generate_missing_report_for_section(promo_section: &PromoSection) -> (rv: Vec<NeededSections>)
    requires
        section_report_defined(promo_section@),
    ensures
        rv@.map_values(|n: NeededSections| needed_view(n)) == section_report(promo_section@),
{
    let ghost sv = promo_section@;
    let mut rv: Vec<NeededSections> = Vec::new();
    let mut stl_nd_sec_ind: usize = 0;
    while stl_nd_sec_ind < promo_section.promo_parts_still_needed.len()
        invariant
            sv == promo_section@,
            section_report_defined(sv),
            stl_nd_sec_ind <= sv.promo_parts_still_needed.len(),
            rv@.map_values(|n: NeededSections| needed_view(n)) == section_report(sv).take(stl_nd_sec_ind as int),
        decreases sv.promo_parts_still_needed.len() - stl_nd_sec_ind,
    {
        let part_index: usize = promo_section.promo_parts_still_needed[stl_nd_sec_ind];
        assert(part_index < sv.part.len());
        let promo_section_part = &promo_section.part[part_index];
        let ghost pv = promo_section_part@;
        assert(pv == sv.part[part_index as int]);
        assert(part_report_defined(pv));
        let mut sec = NeededSections { missing_part_numbers: Vec::new() };
        let mut missing_pn: Vec<MissingPartNumber> = Vec::new();
        let mut tpn_index: usize = 0;
        while tpn_index < promo_section_part.type_prods_for_next_promo_needed.len()
            invariant
                pv == promo_section_part@,
                part_report_defined(pv),
                tpn_index <= pv.type_prods_for_next_promo_needed.len(),
                missing_pn@.map_values(|m: MissingPartNumber| missing_view(m)) == missing_of_part(pv).take(tpn_index as int),
            decreases pv.type_prods_for_next_promo_needed.len() - tpn_index,
        {
            let tpi = promo_section_part.type_prods_for_next_promo_needed[tpn_index];
            assert(pv.type_prods_for_next_promo_needed[tpn_index as int] == tpi);
            assert(0 <= tpi < pv.type_prod.len());
            assert(amount_missing_defined(pv.type_prod[tpi as int].qty_needed, pv.type_prod[tpi as int].total_qty));
            let n_tp = promo_section_part.type_prod.len();
            assert(pv.type_prod.len() == n_tp);
            let ti: usize = tpi as usize;
            assert(ti as int == tpi as int);
            let t = &promo_section_part.type_prod[ti];
            assert(t@ == pv.type_prod[tpi as int]);
            let total_qty = t.total_qty;
            let qty_needed = t.qty_needed;
            let rem = get_amount_missing_for_next_promo(qty_needed, total_qty);
            let missing = MissingPartNumber {
                missing_part_numbers: crate::promo_json::duplicate_strings(&t.part_numbers),
                amount_needed: rem,
            };
            assert(missing_view(missing) == missing_of_group(pv, tpn_index as int));
            let ghost prev = missing_pn@;
            missing_pn.push(missing);
            assert(missing_pn@ == prev.push(missing));
            assert(missing_pn@.map_values(|m: MissingPartNumber| missing_view(m)) =~=
                prev.map_values(|m: MissingPartNumber| missing_view(m)).push(missing_view(missing)));
            assert(missing_of_part(pv).take(tpn_index + 1) =~= missing_of_part(pv).take(tpn_index as int).push(
                missing_of_group(pv, tpn_index as int)));
            tpn_index += 1;
            assert(missing_pn@.map_values(|m: MissingPartNumber| missing_view(m)) =~= missing_of_part(pv).take(tpn_index as int));
        }
        assert(missing_of_part(pv).take(tpn_index as int) =~= missing_of_part(pv));
        sec.missing_part_numbers.push((promo_section_part.part_type, missing_pn));
        assert(needed_view(sec) =~= section_report(sv)[stl_nd_sec_ind as int]);
        let ghost prev_rv = rv@;
        rv.push(sec);
        assert(rv@.map_values(|n: NeededSections| needed_view(n)) =~=
            prev_rv.map_values(|n: NeededSections| needed_view(n)).push(needed_view(sec)));
        assert(section_report(sv).take(stl_nd_sec_ind + 1) =~= section_report(sv).take(stl_nd_sec_ind as int).push(
            section_report(sv)[stl_nd_sec_ind as int]));
        stl_nd_sec_ind += 1;
        assert(rv@.map_values(|n: NeededSections| needed_view(n)) =~= section_report(sv).take(stl_nd_sec_ind as int));
    }
    assert(section_report(sv).take(stl_nd_sec_ind as int) =~= section_report(sv));
    rv
}


/// The texts of `parts`, one after another.
pub open spec fn concat(parts: Seq<Seq<char>>) -> Seq<char>
    decreases parts.len(),
{
    if parts.len() == 0 {
        Seq::empty()
    } else {
        concat(parts.drop_last()) + parts.last()
    }
}

proof fn lemma_concat_step(parts: Seq<Seq<char>>, i: int)
    requires
        0 <= i < parts.len(),
    ensures
        concat(parts.take(i + 1)) == concat(parts.take(i)) + parts[i],
{
    assert(parts.take(i + 1).drop_last() =~= parts.take(i));
}

/// Part numbers written one after another, separated by `" ,"`.
pub open spec fn csv_text(items: Seq<Seq<char>>) -> Seq<char> {
    concat(Seq::new(items.len(), |i: int| if i < items.len() - 1 { items[i] + " ,"@ } else { items[i] }))
}

/// The line of the `i`-th missing group: `"<amount> of a ( <part numbers> )"`,
/// followed by `" Or "` between groups of an `Or` part and by a line break
/// otherwise.
pub open spec fn item_line(join: AndOrType, items: Seq<MissingView>, i: int) -> Seq<char> {
    int_text(items[i].1 as int) + " of a ( "@ + csv_text(items[i].0) + " )"@ + if i < items.len() - 1 {
        if join == AndOrType::Or { " Or "@ } else { "\r\n"@ }
    } else {
        "\r\n"@
    }
}

pub open spec fn entry_text(e: (AndOrType, Seq<MissingView>)) -> Seq<char> {
    concat(Seq::new(e.1.len(), |i: int| item_line(e.0, e.1, i)))
}

pub open spec fn needed_text(n: NeededView) -> Seq<char> {
    concat(n.map_values(|e: (AndOrType, Seq<MissingView>)| entry_text(e)))
}

/// The text of a section's report.
pub open spec fn report_text(r: Seq<NeededView>) -> Seq<char> {
    concat(r.map_values(|n: NeededView| needed_text(n)))
}

fn append_text(s: &mut String, t: &str)
    ensures
        final(s)@ == old(s)@ + t@,
{
    s.append(t);
}

/// The part numbers separated by `" ,"`.
pub fn display_vec_of_strings_as_csv(input: &Vec<String>) -> (out: String)
    ensures
        out@ == csv_text(texts_view(input@)),
{
    let ghost items = texts_view(input@);
    let ghost pieces = Seq::new(items.len(), |i: int| if i < items.len() - 1 { items[i] + " ,"@ } else { items[i] });
    let mut out = String::new();
    let mut val_idx: usize = 0;
    while val_idx < input.len()
        invariant
            items == texts_view(input@),
            pieces == Seq::new(items.len(), |i: int| if i < items.len() - 1 { items[i] + " ,"@ } else { items[i] }),
            val_idx <= input@.len(),
            out@ == concat(pieces.take(val_idx as int)),
        decreases input@.len() - val_idx,
    {
        proof { lemma_concat_step(pieces, val_idx as int); }
        if val_idx < input.len() - 1 {
            append_text(&mut out, input[val_idx].as_str());
            append_text(&mut out, " ,");
        } else {
            append_text(&mut out, input[val_idx].as_str());
        }
        val_idx += 1;
    }
    assert(pieces.take(input@.len() as int) =~= pieces);
    out
}

fn write_entry(join_type: AndOrType, items: &Vec<MissingPartNumber>) -> (out: String)
    ensures
        out@ == entry_text((join_type, items@.map_values(|m: MissingPartNumber| missing_view(m)))),
{
    let ghost iv = items@.map_values(|m: MissingPartNumber| missing_view(m));
    let ghost lines = Seq::new(iv.len(), |i: int| item_line(join_type, iv, i));
    let mut out = String::new();
    let mut item_idx: usize = 0;
    while item_idx < items.len()
        invariant
            iv == items@.map_values(|m: MissingPartNumber| missing_view(m)),
            lines == Seq::new(iv.len(), |i: int| item_line(join_type, iv, i)),
            item_idx <= items@.len(),
            out@ == concat(lines.take(item_idx as int)),
        decreases items@.len() - item_idx,
    {
        proof { lemma_concat_step(lines, item_idx as int); }
        let before = out.clone();
        let amount = i64_to_text(items[item_idx].amount_needed);
        append_text(&mut out, amount.as_str());
        append_text(&mut out, " of a ( ");
        let csv = display_vec_of_strings_as_csv(&items[item_idx].missing_part_numbers);
        append_text(&mut out, csv.as_str());
        append_text(&mut out, " )");
        if item_idx < items.len() - 1 {
            if join_type == AndOrType::Or {
                append_text(&mut out, " Or ");
            } else {
                append_text(&mut out, "\r\n");
            }
        } else {
            append_text(&mut out, "\r\n");
        }
        assert(out@ =~= before@ + lines[item_idx as int]);
        item_idx += 1;
    }
    assert(lines.take(items@.len() as int) =~= lines);
    out
}

fn write_missing_report(missing_report: &Vec<NeededSections>) -> (out: String)
    ensures
        out@ == report_text(missing_report@.map_values(|n: NeededSections| needed_view(n))),
{
    let ghost rv = missing_report@.map_values(|n: NeededSections| needed_view(n));
    let ghost texts = rv.map_values(|n: NeededView| needed_text(n));
    let mut out = String::new();
    let mut sec_index: usize = 0;
    while sec_index < missing_report.len()
        invariant
            rv == missing_report@.map_values(|n: NeededSections| needed_view(n)),
            texts == rv.map_values(|n: NeededView| needed_text(n)),
            sec_index <= missing_report@.len(),
            out@ == concat(texts.take(sec_index as int)),
        decreases missing_report@.len() - sec_index,
    {
        proof { lemma_concat_step(texts, sec_index as int); }
        let sec = &missing_report[sec_index];
        let ghost nv = needed_view(*sec);
        let ghost etexts = nv.map_values(|e: (AndOrType, Seq<MissingView>)| entry_text(e));
        let mut sec_out = String::new();
        let mut missing_index: usize = 0;
        while missing_index < sec.missing_part_numbers.len()
            invariant
                nv == needed_view(*sec),
                etexts == nv.map_values(|e: (AndOrType, Seq<MissingView>)| entry_text(e)),
                missing_index <= sec.missing_part_numbers@.len(),
                sec_out@ == concat(etexts.take(missing_index as int)),
            decreases sec.missing_part_numbers@.len() - missing_index,
        {
            proof { lemma_concat_step(etexts, missing_index as int); }
            let entry = &sec.missing_part_numbers[missing_index];
            let t = write_entry(entry.0, &entry.1);
            append_text(&mut sec_out, t.as_str());
            missing_index += 1;
        }
        assert(etexts.take(sec.missing_part_numbers@.len() as int) =~= etexts);
        append_text(&mut out, sec_out.as_str());
        sec_index += 1;
    }
    assert(texts.take(missing_report@.len() as int) =~= texts);
    out
}


/// The lines of the `i`-th section (counted from zero) of a promotion.
pub open spec fn section_text(i: int, s: PromoSectionView) -> Seq<char> {
    "Qualified "@ + int_text(s.times_section_qualified as int) + " times for Promo "@ + nat_text((i + 1) as nat) + "\r\n"@
        + (if s.times_section_qualified == 0 {
            "To get the promo you need to purchase:\r\n"@
        } else {
            "To get another you need to purchase:\r\n"@
        }) + report_text(section_report(s))
}

/// The block of one customer: a heading, each section in order, and an
/// empty line.
pub open spec fn customer_text(name: Seq<char>, p: PromotionView) -> Seq<char> {
    "For Customer: "@ + name + "\r\n"@
        + concat(Seq::new(p.promo_sections.len(), |i: int| section_text(i, p.promo_sections[i])))
        + "\r\n"@
}

/// The whole report: one block per customer, customers in increasing order
/// of name.
pub open spec fn missing_report_text(names: Seq<Seq<char>>, promos: Seq<PromotionView>) -> Seq<char> {
    concat(Seq::new(names.len(), |i: int| customer_text(names[i], promos[i])))
}

/// The map is well formed (its customers in strictly increasing order of
/// name) and every section of every customer's promotion can be reported.
pub open spec fn report_defined(m: &PromoMap) -> bool {
    &&& m.wf()
    &&& forall|i: int, j: int| 0 <= i < m.vals().len() && 0 <= j < m.vals()[i].promo_sections.len()
        ==> section_report_defined(#[trigger] m.vals()[i].promo_sections[j])
}

fn section_block(sec_id: usize, section: &crate::promo_json::PromoSection) -> (out: String)
    requires
        sec_id < usize::MAX,
        section_report_defined(section@),
    ensures
        out@ == section_text(sec_id as int, section@),
{
    let mut out = String::new();
    append_text(&mut out, "Qualified ");
    let times = i64_to_text(section.times_section_qualified);
    append_text(&mut out, times.as_str());
    append_text(&mut out, " times for Promo ");
    let number = u64_to_text((sec_id + 1) as u64);
    append_text(&mut out, number.as_str());
    append_text(&mut out, "\r\n");
    if section.times_section_qualified == 0 {
        append_text(&mut out, "To get the promo you need to purchase:\r\n");
    } else {
        append_text(&mut out, "To get another you need to purchase:\r\n");
    }
    let missing_section_data = generate_missing_report_for_section(section);
    let report = write_missing_report(&missing_section_data);
    append_text(&mut out, report.as_str());
    out
}

fn customer_block(name: &String, promo: &crate::promo_json::Promotion) -> (out: String)
    requires
        forall|j: int| 0 <= j < promo@.promo_sections.len() ==> section_report_defined(#[trigger] promo@.promo_sections[j]),
    ensures
        out@ == customer_text(name@, promo@),
{
    let ghost pv = promo@;
    let ghost blocks = Seq::new(pv.promo_sections.len(), |i: int| section_text(i, pv.promo_sections[i]));
    let mut out = String::new();
    append_text(&mut out, "For Customer: ");
    append_text(&mut out, name.as_str());
    append_text(&mut out, "\r\n");
    let mut sections = String::new();
    let mut sec_id: usize = 0;
    while sec_id < promo.promo_sections.len()
        invariant
            pv == promo@,
            blocks == Seq::new(pv.promo_sections.len(), |i: int| section_text(i, pv.promo_sections[i])),
            forall|j: int| 0 <= j < pv.promo_sections.len() ==> section_report_defined(#[trigger] pv.promo_sections[j]),
            sec_id <= pv.promo_sections.len(),
            sections@ == concat(blocks.take(sec_id as int)),
        decreases pv.promo_sections.len() - sec_id,
    {
        proof { lemma_concat_step(blocks, sec_id as int); }
        let section = &promo.promo_sections[sec_id];
        assert(section@ == pv.promo_sections[sec_id as int]);
        let block = section_block(sec_id, section);
        append_text(&mut sections, block.as_str());
        sec_id += 1;
    }
    assert(blocks.take(pv.promo_sections.len() as int) =~= blocks);
    append_text(&mut out, sections.as_str());
    append_text(&mut out, "\r\n");
    out
}

/// The report of what every customer still has to buy, customers in
/// increasing order of name (see `missing_report_text`).
pub fn display_missing_report(hsh: &PromoMap) -> (out: String)
    requires
        report_defined(hsh),
    ensures
        out@ == missing_report_text(hsh.keys(), hsh.vals()),
{
    let ghost blocks = Seq::new(hsh.keys().len(), |i: int| customer_text(hsh.keys()[i], hsh.vals()[i]));
    proof { hsh.lemma_keys_vals(); }
    let mut out = String::new();
    let mut i: usize = 0;
    while i < hsh.len()
        invariant
            blocks == Seq::new(hsh.keys().len(), |i: int| customer_text(hsh.keys()[i], hsh.vals()[i])),
            hsh.keys().len() == hsh.values().len(),
            report_defined(hsh),
            i <= hsh.keys().len(),
            out@ == concat(blocks.take(i as int)),
        decreases hsh.keys().len() - i,
    {
        proof { lemma_concat_step(blocks, i as int); }
        let name = hsh.key_at(i);
        let promo = hsh.value_at(i);
        assert forall|j: int| 0 <= j < promo@.promo_sections.len() implies section_report_defined(#[trigger] promo@.promo_sections[j]) by {
            assert(promo@ == hsh.vals()[i as int]);
        }
        let block = customer_block(name, promo);
        append_text(&mut out, block.as_str());
        i += 1;
    }
    assert(blocks.take(hsh.keys().len() as int) =~= blocks);
    out
}


/// Whether `get_amount_missing_for_next_promo` is defined for these values.
pub fn amount_missing_is_defined(qty_needed: i64, qty_claimed: i64) -> (b: bool)
    ensures
        b == amount_missing_defined(qty_needed, qty_claimed),
{
    if qty_claimed < qty_needed {
        (qty_needed as i128 - qty_claimed as i128) <= i64::MAX as i128
    } else if qty_claimed == qty_needed {
        true
    } else {
        if qty_needed == 0 {
            return false;
        }
        let ghost q = trunc_div(qty_claimed as int, qty_needed as int);
        let a: i128 = qty_claimed as i128;
        let b: i128 = qty_needed as i128;
        let ua: u128 = if a >= 0 { a as u128 } else { (-a) as u128 };
        let ub: u128 = if b >= 0 { b as u128 } else { (-b) as u128 };
        let m: u128 = ua / ub;
        assert(m <= ua) by {
            vstd::arithmetic::div_mod::lemma_div_is_ordered_by_denominator(ua as int, 1, ub as int);
            vstd::arithmetic::div_mod::lemma_div_basics(ua as int);
        }
        let qq: i128 = if (a >= 0) == (b > 0) { m as i128 } else { -(m as i128) };
        assert(qq == q);
        let q1: i128 = qq + 1;
        if q1 < i64::MIN as i128 || q1 > i64::MAX as i128 {
            return false;
        }
        assert(-0x4000_0000_0000_0000_0000_0000_0000_0000 <= q1 * b <= 0x4000_0000_0000_0000_0000_0000_0000_0000) by (nonlinear_arith)
            requires
                -0x8000_0000_0000_0000 <= q1 <= 0x7fff_ffff_ffff_ffff,
                -0x8000_0000_0000_0000 <= b <= 0x7fff_ffff_ffff_ffff,
        ;
        let prod: i128 = q1 * b;
        if prod < i64::MIN as i128 || prod > i64::MAX as i128 {
            return false;
        }
        let rem: i128 = prod - a;
        rem >= i64::MIN as i128 && rem <= i64::MAX as i128
    }
}

fn part_report_is_defined(part: &Part) -> (b: bool)
    ensures
        b == part_report_defined(part@),
{
    let ghost pv = part@;
    let mut k: usize = 0;
    while k < part.type_prods_for_next_promo_needed.len()
        invariant
            pv == part@,
            k <= pv.type_prods_for_next_promo_needed.len(),
            forall|x: int| 0 <= x < k ==> {
                let i = #[trigger] pv.type_prods_for_next_promo_needed[x];
                &&& 0 <= i < pv.type_prod.len()
                &&& amount_missing_defined(pv.type_prod[i as int].qty_needed, pv.type_prod[i as int].total_qty)
            },
        decreases pv.type_prods_for_next_promo_needed.len() - k,
    {
        let i = part.type_prods_for_next_promo_needed[k];
        assert(pv.type_prods_for_next_promo_needed[k as int] == i);
        if i < 0 || (i as u64) >= part.type_prod.len() as u64 {
            return false;
        }
        let ti: usize = i as usize;
        let t = &part.type_prod[ti];
        assert(t@ == pv.type_prod[i as int]);
        if !amount_missing_is_defined(t.qty_needed, t.total_qty) {
            return false;
        }
        k += 1;
    }
    true
}

fn section_report_is_defined(sec: &PromoSection) -> (b: bool)
    ensures
        b == section_report_defined(sec@),
{
    let ghost sv = sec@;
    let mut i: usize = 0;
    while i < sec.promo_parts_still_needed.len()
        invariant
            sv == sec@,
            i <= sv.promo_parts_still_needed.len(),
            forall|x: int| 0 <= x < i ==> {
                let p = #[trigger] sv.promo_parts_still_needed[x];
                &&& p < sv.part.len()
                &&& part_report_defined(sv.part[p as int])
            },
        decreases sv.promo_parts_still_needed.len() - i,
    {
        let p = sec.promo_parts_still_needed[i];
        assert(sv.promo_parts_still_needed[i as int] == p);
        if p >= sec.part.len() {
            return false;
        }
        if !part_report_is_defined(&sec.part[p]) {
            assert(!part_report_defined(sv.part[p as int]));
            return false;
        }
        i += 1;
    }
    true
}

/// Whether `display_missing_report` can report every section of the map
/// (see `report_defined`).
pub fn can_display_missing_report(hsh: &PromoMap) -> (b: bool)
    ensures
        b == report_defined(hsh),
{
    proof { hsh.lemma_keys_vals(); }
    if !hsh.is_wf() {
        return false;
    }
    let mut i: usize = 0;
    while i < hsh.len()
        invariant
            hsh.wf(),
            i <= hsh.vals().len(),
            hsh.keys().len() == hsh.values().len(),
            forall|x: int, j: int| 0 <= x < i && 0 <= j < hsh.vals()[x].promo_sections.len()
                ==> section_report_defined(#[trigger] hsh.vals()[x].promo_sections[j]),
        decreases hsh.vals().len() - i,
    {
        let promo = hsh.value_at(i);
        assert(promo@ == hsh.vals()[i as int]);
        let mut j: usize = 0;
        while j < promo.promo_sections.len()
            invariant
                promo@ == hsh.vals()[i as int],
                i < hsh.vals().len(),
                j <= promo@.promo_sections.len(),
                forall|y: int| 0 <= y < j ==> section_report_defined(#[trigger] promo@.promo_sections[y]),
            decreases promo@.promo_sections.len() - j,
        {
            if !section_report_is_defined(&promo.promo_sections[j]) {
                assert(!section_report_defined(hsh.vals()[i as int].promo_sections[j as int]));
                return false;
            }
            j += 1;
        }
        assert forall|x: int, y: int| 0 <= x < i + 1 && 0 <= y < hsh.vals()[x].promo_sections.len()
            implies section_report_defined(#[trigger] hsh.vals()[x].promo_sections[y]) by {
            if x == i {
                assert(section_report_defined(promo@.promo_sections[y]));
            }
        }
        i += 1;
    }
    true
}

/// `block` begins with the line `Qualified <count> times for Promo <w>`,
/// where `w` reads as the number `number`.
pub open spec fn heads_section(block: Seq<char>, count: i64, number: int) -> bool {
    exists|w: Seq<char>| {
        let line = "Qualified "@ + int_text(count as int) + " times for Promo "@ + w + "\r\n"@;
        &&& line.len() <= block.len()
        &&& block.take(line.len() as int) == line
        &&& #[trigger] spec_parse_i64(w) == Ok::<int, ParseIntError>(number)
    }
}

/// The block of a customer is a heading that names the customer, then one
/// block for each section of the promotion, in order, then an empty line.
/// The block of the section at position `k` begins with the line
/// `Qualified <count> times for Promo <number>`, whose number reads back as
/// `k + 1`: the sections are numbered from one, each with its own number.
pub proof fn lemma_customer_blocks(name: Seq<char>, p: PromotionView)
    requires
        p.promo_sections.len() < i64::MAX,
    ensures
        exists|blocks: Seq<Seq<char>>| {
            &&& blocks.len() == p.promo_sections.len()
            &&& #[trigger] concat(blocks) + "\r\n"@ == customer_text(name, p).skip(("For Customer: "@ + name + "\r\n"@).len() as int)
            &&& customer_text(name, p) == "For Customer: "@ + name + "\r\n"@ + concat(blocks) + "\r\n"@
            &&& forall|k: int| 0 <= k < blocks.len() ==>
                heads_section(#[trigger] blocks[k], p.promo_sections[k].times_section_qualified, k + 1)
        },
{
    let blocks = Seq::new(p.promo_sections.len(), |i: int| section_text(i, p.promo_sections[i]));
    assert forall|k: int| 0 <= k < blocks.len() implies
        heads_section(#[trigger] blocks[k], p.promo_sections[k].times_section_qualified, k + 1) by {
        let s = p.promo_sections[k];
        let w = nat_text((k + 1) as nat);
        let rest = (if s.times_section_qualified == 0 {
            "To get the promo you need to purchase:\r\n"@
        } else {
            "To get another you need to purchase:\r\n"@
        }) + report_text(section_report(s));
        lemma_parse_i64_of_text((k + 1) as i64);
        assert(int_text(k + 1) == w);
        let line = "Qualified "@ + int_text(s.times_section_qualified as int) + " times for Promo "@ + w + "\r\n"@;
        assert(blocks[k] =~= line + rest);
        assert(blocks[k].take(line.len() as int) =~= line);
    }
    let head = "For Customer: "@ + name + "\r\n"@;
    assert(customer_text(name, p) == head + concat(blocks) + "\r\n"@);
    assert(customer_text(name, p).skip(head.len() as int) =~= concat(blocks) + "\r\n"@);
}

/// The report of a section has one entry for each part still needed, in the
/// order they are listed; the entry of part `p` gives how its groups combine
/// and, for each group its next qualification needs, in order, the group's
/// part numbers and the least positive number of units that brings the
/// group's total to a multiple of its quantity needed (for a positive
/// quantity needed and a total not below zero).
pub proof fn lemma_section_report_lists_needs(s: PromoSectionView)
    requires
        section_report_defined(s),
    ensures
        section_report(s).len() == s.promo_parts_still_needed.len(),
        forall|i: int| 0 <= i < s.promo_parts_still_needed.len() ==> {
            let part = s.part[s.promo_parts_still_needed[i] as int];
            let e = #[trigger] section_report(s)[i];
            &&& e.len() == 1
            &&& e[0].0 == part.part_type
            &&& e[0].1.len() == part.type_prods_for_next_promo_needed.len()
            &&& forall|k: int| 0 <= k < e[0].1.len() ==> {
                let g = part.type_prod[part.type_prods_for_next_promo_needed[k] as int];
                let item = #[trigger] e[0].1[k];
                &&& item.0 == g.part_numbers
                &&& (g.qty_needed > 0 && g.total_qty >= 0) ==> {
                    &&& 0 < item.1 <= g.qty_needed
                    &&& (g.total_qty + item.1) % (g.qty_needed as int) == 0
                    &&& forall|u: int| 0 < u < item.1 ==> #[trigger] ((g.total_qty + u) % (g.qty_needed as int)) != 0
                }
            }
        },
{
    assert forall|i: int| 0 <= i < s.promo_parts_still_needed.len() implies {
        let part = s.part[s.promo_parts_still_needed[i] as int];
        let e = #[trigger] section_report(s)[i];
        &&& e.len() == 1
        &&& e[0].0 == part.part_type
        &&& e[0].1.len() == part.type_prods_for_next_promo_needed.len()
        &&& forall|k: int| 0 <= k < e[0].1.len() ==> {
            let g = part.type_prod[part.type_prods_for_next_promo_needed[k] as int];
            let item = #[trigger] e[0].1[k];
            &&& item.0 == g.part_numbers
            &&& (g.qty_needed > 0 && g.total_qty >= 0) ==> {
                &&& 0 < item.1 <= g.qty_needed
                &&& (g.total_qty + item.1) % (g.qty_needed as int) == 0
                &&& forall|u: int| 0 < u < item.1 ==> #[trigger] ((g.total_qty + u) % (g.qty_needed as int)) != 0
            }
        }
    } by {
        let part = s.part[s.promo_parts_still_needed[i] as int];
        let e = section_report(s)[i];
        let pi = s.promo_parts_still_needed[i];
        assert(part_report_defined(s.part[pi as int]));
        assert forall|k: int| 0 <= k < e[0].1.len() implies {
            let g = part.type_prod[part.type_prods_for_next_promo_needed[k] as int];
            let item = #[trigger] e[0].1[k];
            &&& item.0 == g.part_numbers
            &&& (g.qty_needed > 0 && g.total_qty >= 0) ==> {
                &&& 0 < item.1 <= g.qty_needed
                &&& (g.total_qty + item.1) % (g.qty_needed as int) == 0
                &&& forall|u: int| 0 < u < item.1 ==> #[trigger] ((g.total_qty + u) % (g.qty_needed as int)) != 0
            }
        } by {
            let ti = part.type_prods_for_next_promo_needed[k];
            let g = part.type_prod[ti as int];
            assert(amount_missing_defined(g.qty_needed, g.total_qty));
            if g.qty_needed > 0 && g.total_qty >= 0 {
                lemma_amount_missing_next_multiple(g.qty_needed as int, g.total_qty as int);
                let a = amount_missing(g.qty_needed as int, g.total_qty as int);
                assert(in_i64(a));
                assert(e[0].1[k].1 == a);
            }
        }
    }
}

} // verus!
