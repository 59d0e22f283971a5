//! Matching one purchase row against the promotion of its customer.
use vstd::prelude::*;
use crate::column_data::{ColumnData, ColumnDataView};
use crate::keyed::TextMap;
use crate::promo_json::{texts_view, duplicate_row, row_view, row_wf, Part, PartView, PromoSection, PromoSectionView, Promotion, PromotionView, TypeProdView};
use crate::text::{parse_i64, spec_parse_i64, in_i64, ParseIntError};

verus! {

/// A purchase row, with the positions of its part number and quantity cells.
pub struct Pas<'a> {
    pub item_name: &'a Vec<ColumnData>,
    pub part_number_index: usize,
    pub qty_index: usize,
}

/// The first position at or after `start` whose element satisfies `f`, or
/// the length when none does.
pub open spec fn first_where<T>(s: Seq<T>, f: spec_fn(T) -> bool, start: int) -> int
    decreases s.len() - start,
{
    if start >= s.len() {
        s.len() as int
    } else if f(s[start]) {
        start
    } else {
        first_where(s, f, start + 1)
    }
}

pub proof fn lemma_first_where<T>(s: Seq<T>, f: spec_fn(T) -> bool, start: int)
    requires
        0 <= start <= s.len(),
    ensures
        start <= first_where(s, f, start) <= s.len(),
        forall|j: int| start <= j < first_where(s, f, start) ==> !f(#[trigger] s[j]),
        first_where(s, f, start) < s.len() ==> f(s[first_where(s, f, start)]),
    decreases s.len() - start,
{
    if start < s.len() && !f(s[start]) {
        lemma_first_where(s, f, start + 1);
    }
}


/// A product group takes purchases of part number `pn`.
pub open spec fn tp_matches(t: TypeProdView, pn: Seq<char>) -> bool {
    t.part_numbers.contains(pn)
}

/// The group with `row` recorded among its purchases.
pub open spec fn tp_with_row(t: TypeProdView, row: Seq<ColumnDataView>) -> TypeProdView {
    TypeProdView {
        qty_needed: t.qty_needed,
        part_numbers: t.part_numbers,
        found_numbers: t.found_numbers.push(row),
        total_qty: t.total_qty,
        times_qualified: t.times_qualified,
    }
}

/// The group with `row` recorded and `qty` more units bought.
pub open spec fn tp_with_purchase(t: TypeProdView, row: Seq<ColumnDataView>, qty: int) -> TypeProdView {
    TypeProdView {
        qty_needed: t.qty_needed,
        part_numbers: t.part_numbers,
        found_numbers: t.found_numbers.push(row),
        total_qty: (t.total_qty + qty) as i64,
        times_qualified: t.times_qualified,
    }
}

pub open spec fn tp_after_purchase(t: TypeProdView, pn: Seq<char>, row: Seq<ColumnDataView>, qty: int) -> TypeProdView {
    if tp_matches(t, pn) { tp_with_purchase(t, row, qty) } else { t }
}

pub open spec fn part_with_type_prods(p: PartView, tps: Seq<TypeProdView>) -> PartView {
    PartView {
        part_type: p.part_type,
        type_prod: tps,
        qty_parts_still_needed: p.qty_parts_still_needed,
        times_parts_qualified: p.times_parts_qualified,
        type_prods_for_next_promo_needed: p.type_prods_for_next_promo_needed,
    }
}

pub open spec fn section_with_parts(s: PromoSectionView, parts: Seq<PartView>) -> PromoSectionView {
    PromoSectionView {
        promo_parts_still_needed: s.promo_parts_still_needed,
        times_section_qualified: s.times_section_qualified,
        part: parts,
    }
}

pub open spec fn promotion_with_sections(p: PromotionView, secs: Seq<PromoSectionView>) -> PromotionView {
    PromotionView { start_date: p.start_date, end_date: p.end_date, promo_sections: secs }
}

/// Every group of the part that takes `pn` records the purchase.
pub open spec fn part_with_purchase(p: PartView, pn: Seq<char>, row: Seq<ColumnDataView>, qty: int) -> PartView {
    part_with_type_prods(p, p.type_prod.map_values(|t: TypeProdView| tp_after_purchase(t, pn, row, qty)))
}

pub open spec fn section_with_purchase(s: PromoSectionView, pn: Seq<char>, row: Seq<ColumnDataView>, qty: int) -> PromoSectionView {
    section_with_parts(s, s.part.map_values(|p: PartView| part_with_purchase(p, pn, row, qty)))
}

/// Every group of the promotion that takes `pn` records the purchase.
pub open spec fn promotion_with_purchase(p: PromotionView, pn: Seq<char>, row: Seq<ColumnDataView>, qty: int) -> PromotionView {
    promotion_with_sections(p, p.promo_sections.map_values(|s: PromoSectionView| section_with_purchase(s, pn, row, qty)))
}

pub open spec fn tp_matcher(pn: Seq<char>) -> spec_fn(TypeProdView) -> bool {
    |t: TypeProdView| tp_matches(t, pn)
}

pub open spec fn part_matcher(pn: Seq<char>) -> spec_fn(PartView) -> bool {
    |p: PartView| part_has_match(p, pn)
}

pub open spec fn section_matcher(pn: Seq<char>) -> spec_fn(PromoSectionView) -> bool {
    |s: PromoSectionView| section_has_match(s, pn)
}

pub open spec fn part_first_match(p: PartView, pn: Seq<char>) -> int {
    first_where(p.type_prod, tp_matcher(pn), 0)
}

pub open spec fn part_has_match(p: PartView, pn: Seq<char>) -> bool {
    part_first_match(p, pn) < p.type_prod.len()
}

pub open spec fn section_first_match(s: PromoSectionView, pn: Seq<char>) -> int {
    first_where(s.part, part_matcher(pn), 0)
}

pub open spec fn section_has_match(s: PromoSectionView, pn: Seq<char>) -> bool {
    section_first_match(s, pn) < s.part.len()
}

pub open spec fn promotion_first_match(p: PromotionView, pn: Seq<char>) -> int {
    first_where(p.promo_sections, section_matcher(pn), 0)
}

/// Some group of the promotion takes part number `pn`.
pub open spec fn promotion_has_match(p: PromotionView, pn: Seq<char>) -> bool {
    promotion_first_match(p, pn) < p.promo_sections.len()
}

/// The first group (in section, part, group order) that takes `pn` records
/// `row`; nothing else changes.
pub open spec fn part_with_first_row(p: PartView, pn: Seq<char>, row: Seq<ColumnDataView>) -> PartView {
    let i = part_first_match(p, pn);
    part_with_type_prods(p, p.type_prod.update(i, tp_with_row(p.type_prod[i], row)))
}

pub open spec fn section_with_first_row(s: PromoSectionView, pn: Seq<char>, row: Seq<ColumnDataView>) -> PromoSectionView {
    let i = section_first_match(s, pn);
    section_with_parts(s, s.part.update(i, part_with_first_row(s.part[i], pn, row)))
}

pub open spec fn promotion_with_first_row(p: PromotionView, pn: Seq<char>, row: Seq<ColumnDataView>) -> PromotionView {
    let i = promotion_first_match(p, pn);
    promotion_with_sections(p, p.promo_sections.update(i, section_with_first_row(p.promo_sections[i], pn, row)))
}

/// What recording a purchase row does to a part: with a quantity that reads
/// as an integer, every group taking the part number records the row and the
/// units; otherwise the first group taking it records the row, and the
/// reading error is returned.
pub open spec fn part_after_row(p: PartView, pn: Seq<char>, qty_text: Seq<char>, row: Seq<ColumnDataView>) -> (PartView, Result<(), ParseIntError>) {
    match spec_parse_i64(qty_text) {
        Ok(q) => (part_with_purchase(p, pn, row, q), Ok(())),
        Err(e) => if part_has_match(p, pn) {
            (part_with_first_row(p, pn, row), Err(e))
        } else {
            (p, Ok(()))
        },
    }
}

pub open spec fn section_after_row(s: PromoSectionView, pn: Seq<char>, qty_text: Seq<char>, row: Seq<ColumnDataView>) -> (PromoSectionView, Result<(), ParseIntError>) {
    match spec_parse_i64(qty_text) {
        Ok(q) => (section_with_purchase(s, pn, row, q), Ok(())),
        Err(e) => if section_has_match(s, pn) {
            (section_with_first_row(s, pn, row), Err(e))
        } else {
            (s, Ok(()))
        },
    }
}

/// What recording a purchase row does to a promotion (see `part_after_row`).
pub open spec fn promotion_after_row(p: PromotionView, pn: Seq<char>, qty_text: Seq<char>, row: Seq<ColumnDataView>) -> (PromotionView, Result<(), ParseIntError>) {
    match spec_parse_i64(qty_text) {
        Ok(q) => (promotion_with_purchase(p, pn, row, q), Ok(())),
        Err(e) => if promotion_has_match(p, pn) {
            (promotion_with_first_row(p, pn, row), Err(e))
        } else {
            (p, Ok(()))
        },
    }
}

/// A purchase whose part number no group of the promotion takes leaves the
/// promotion as it was, and is no error, whatever its quantity text.
pub proof fn lemma_unmatched_purchase_changes_nothing(p: PromotionView, pn: Seq<char>, qty_text: Seq<char>, row: Seq<ColumnDataView>)
    requires
        !promotion_has_match(p, pn),
    ensures
        promotion_after_row(p, pn, qty_text, row) == (p, Ok::<(), ParseIntError>(())),
{
    if let Ok(q) = spec_parse_i64(qty_text) {
        lemma_first_where(p.promo_sections, section_matcher(pn), 0);
        let secs = p.promo_sections.map_values(|s: PromoSectionView| section_with_purchase(s, pn, row, q));
        assert forall|i: int| 0 <= i < secs.len() implies #[trigger] secs[i] == p.promo_sections[i] by {
            let sc = p.promo_sections[i];
            assert(!section_matcher(pn)(sc));
            lemma_first_where(sc.part, part_matcher(pn), 0);
            let parts = sc.part.map_values(|pt: PartView| part_with_purchase(pt, pn, row, q));
            assert forall|j: int| 0 <= j < parts.len() implies #[trigger] parts[j] == sc.part[j] by {
                let pt = sc.part[j];
                assert(!part_matcher(pn)(pt));
                lemma_first_where(pt.type_prod, tp_matcher(pn), 0);
                let tps = pt.type_prod.map_values(|t: TypeProdView| tp_after_purchase(t, pn, row, q));
                assert forall|k: int| 0 <= k < tps.len() implies #[trigger] tps[k] == pt.type_prod[k] by {
                    assert(!tp_matcher(pn)(pt.type_prod[k]));
                }
                assert(tps =~= pt.type_prod);
            }
            assert(parts =~= sc.part);
        }
        assert(secs =~= p.promo_sections);
    }
}

/// Adding `qty` to every group that takes `pn` keeps each total an `i64`.
pub open spec fn part_fits(p: PartView, pn: Seq<char>, qty: int) -> bool {
    forall|t: int| 0 <= t < p.type_prod.len() && tp_matches(#[trigger] p.type_prod[t], pn)
        ==> in_i64(p.type_prod[t].total_qty + qty)
}

pub open spec fn section_fits(s: PromoSectionView, pn: Seq<char>, qty: int) -> bool {
    forall|i: int| 0 <= i < s.part.len() ==> part_fits(#[trigger] s.part[i], pn, qty)
}

pub open spec fn promotion_fits(p: PromotionView, pn: Seq<char>, qty: int) -> bool {
    forall|i: int| 0 <= i < p.promo_sections.len() ==> section_fits(#[trigger] p.promo_sections[i], pn, qty)
}

/// The part number cell of the row (meaningful when its index is in range).
pub open spec fn row_part_number(row: Seq<ColumnDataView>, p: &Pas) -> Seq<char> {
    row[p.part_number_index as int].value
}

/// The quantity cell of the row (meaningful when its index is in range).
pub open spec fn row_qty_text(row: Seq<ColumnDataView>, p: &Pas) -> Seq<char> {
    row[p.qty_index as int].value
}

pub open spec fn part_has_type_prods(p: PartView) -> bool {
    p.type_prod.len() > 0
}

pub open spec fn section_has_type_prods(s: PromoSectionView) -> bool {
    exists|i: int| 0 <= i < s.part.len() && part_has_type_prods(#[trigger] s.part[i])
}

/// The promotion has at least one product group.
pub open spec fn promotion_has_type_prods(p: PromotionView) -> bool {
    exists|i: int| 0 <= i < p.promo_sections.len() && section_has_type_prods(#[trigger] p.promo_sections[i])
}

/// Recording the row into a part reads only cells that exist and keeps
/// every total an `i64`.
pub open spec fn part_accepts(part: PartView, p: &Pas) -> bool {
    let row = row_view(p.item_name@);
    &&& part_has_type_prods(part) ==> p.part_number_index < row.len()
    &&& part_has_match(part, row_part_number(row, p)) ==> {
        &&& p.qty_index < row.len()
        &&& spec_parse_i64(row_qty_text(row, p)) matches Ok(q) ==> part_fits(part, row_part_number(row, p), q)
    }
}

pub open spec fn section_accepts(s: PromoSectionView, p: &Pas) -> bool {
    let row = row_view(p.item_name@);
    &&& section_has_type_prods(s) ==> p.part_number_index < row.len()
    &&& section_has_match(s, row_part_number(row, p)) ==> {
        &&& p.qty_index < row.len()
        &&& spec_parse_i64(row_qty_text(row, p)) matches Ok(q) ==> section_fits(s, row_part_number(row, p), q)
    }
}

/// Recording the row into the promotion reads only cells that exist and
/// keeps every total an `i64`.
pub open spec fn promotion_accepts(promo: PromotionView, p: &Pas) -> bool {
    promotion_takes_row(promo, row_view(p.item_name@), p.part_number_index as int, p.qty_index as int)
}

/// `promotion_accepts` for a row given by its cells and the positions of
/// its part number and quantity.
pub open spec fn promotion_takes_row(promo: PromotionView, row: Seq<ColumnDataView>, pn_index: int, qty_index: int) -> bool {
    &&& promotion_has_type_prods(promo) ==> pn_index < row.len()
    &&& promotion_has_match(promo, row[pn_index].value) ==> {
        &&& qty_index < row.len()
        &&& spec_parse_i64(row[qty_index].value) matches Ok(q) ==> promotion_fits(promo, row[pn_index].value, q)
    }
}

/// Whether the list of part numbers holds `pn`.
pub fn contains_text(list: &Vec<String>, pn: &String) -> (r: bool)
    ensures
        r == texts_view(list@).contains(pn@),
{
    let ghost l = texts_view(list@);
    let mut i: usize = 0;
    while i < list.len()
        invariant
            i <= list@.len(),
            l == texts_view(list@),
            forall|j: int| 0 <= j < i ==> l[j] != pn@,
        decreases list@.len() - i,
    {
        if list[i] == *pn {
            assert(l[i as int] == pn@);
            return true;
        }
        i += 1;
    }
    false
}

fn insert_into_promo_part(promo_part: &mut Part, p: &Pas) -> (r: Result<(), ParseIntError>)
    requires
        old(promo_part).wf(),
        row_wf(p.item_name@),
        part_accepts(old(promo_part)@, p),
    ensures
        final(promo_part).wf(),
        (final(promo_part)@, r) == part_after_row(
            old(promo_part)@,
            row_part_number(row_view(p.item_name@), p),
            row_qty_text(row_view(p.item_name@), p),
            row_view(p.item_name@),
        ),
{
    let ghost row = row_view(p.item_name@);
    let ghost pn = row_part_number(row, p);
    let ghost qt = row_qty_text(row, p);
    let ghost old_part = promo_part@;
    proof { lemma_first_where(old_part.type_prod, tp_matcher(pn), 0); }
    let n = promo_part.type_prod.len();
    let mut i: usize = 0;
    while i < n
        invariant
            old_part == old(promo_part)@,
            n == old_part.type_prod.len(),
            n == promo_part.type_prod@.len(),
            i <= n,
            row == row_view(p.item_name@),
            row_wf(p.item_name@),
            pn == row_part_number(row, p),
            qt == row_qty_text(row, p),
            part_accepts(old_part, p),
            forall|j: int| 0 <= j < part_first_match(old_part, pn) ==> !tp_matches(#[trigger] old_part.type_prod[j], pn),
            0 <= part_first_match(old_part, pn) <= n,
            part_first_match(old_part, pn) < n ==> tp_matches(old_part.type_prod[part_first_match(old_part, pn)], pn),
            promo_part.wf(),
            promo_part@ == part_with_type_prods(old_part, promo_part@.type_prod),
            spec_parse_i64(qt) is Err ==> forall|j: int| 0 <= j < i ==> !tp_matches(#[trigger] old_part.type_prod[j], pn),
            forall|j: int| 0 <= j < n ==> (#[trigger] promo_part.type_prod@[j])@ == (
                if j < i { tp_after_purchase(old_part.type_prod[j], pn, row, spec_parse_i64(qt)->Ok_0) }
                else { old_part.type_prod[j] }),
        decreases n - i,
    {
        assert(promo_part.type_prod@[i as int]@ == old_part.type_prod[i as int]);
        if contains_text(&promo_part.type_prod[i].part_numbers, &p.item_name[p.part_number_index].value) {
            assert(tp_matches(old_part.type_prod[i as int], pn));
            let row_copy = duplicate_row(p.item_name);
            let parsed = parse_i64(p.item_name[p.qty_index].value.as_str());
            promo_part.type_prod[i].found_numbers.push(row_copy);
            assert(promo_part.type_prod@[i as int]@.found_numbers =~= old_part.type_prod[i as int].found_numbers.push(row));
            assert(promo_part.type_prod@[i as int]@ == tp_with_row(old_part.type_prod[i as int], row));
            match parsed {
                Ok(q) => {
                    assert(part_fits(old_part, pn, q as int));
                    assert(in_i64(old_part.type_prod[i as int].total_qty + q));
                    promo_part.type_prod[i].total_qty = promo_part.type_prod[i].total_qty + q;
                    assert(promo_part.type_prod@[i as int]@ == tp_with_purchase(old_part.type_prod[i as int], row, q as int));
                },
                Err(e) => {
                    proof {
                        let fm = part_first_match(old_part, pn);
                        if fm < i {
                            assert(!tp_matches(old_part.type_prod[fm], pn));
                        }
                        if fm > i {
                            assert(!tp_matches(old_part.type_prod[i as int], pn));
                        }
                        assert(part_first_match(old_part, pn) == i);
                        assert(promo_part@.type_prod =~= old_part.type_prod.update(
                            i as int, tp_with_row(old_part.type_prod[i as int], row)));
                        assert(promo_part@ == part_with_first_row(old_part, pn, row));
                        assert(spec_parse_i64(qt) == Err::<int, ParseIntError>(e));
                        assert(part_has_match(old_part, pn));
                        assert(part_after_row(old_part, pn, qt, row) == (promo_part@, Err::<(), ParseIntError>(e)));
                    }
                    return Err(e);
                },
            }
        }
        i += 1;
    }
    proof {
        if spec_parse_i64(qt) is Err {
            assert(part_first_match(old_part, pn) == n);
            assert(promo_part@.type_prod =~= old_part.type_prod);
        } else {
            assert(promo_part@.type_prod =~= old_part.type_prod.map_values(
                |t: TypeProdView| tp_after_purchase(t, pn, row, spec_parse_i64(qt)->Ok_0)));
        }
    }
    Ok(())
}


proof fn lemma_section_accepts_parts(s: PromoSectionView, p: &Pas, i: int)
    requires
        section_accepts(s, p),
        0 <= i < s.part.len(),
    ensures
        part_accepts(s.part[i], p),
{
    let row = row_view(p.item_name@);
    let pn = row_part_number(row, p);
    if part_has_type_prods(s.part[i]) {
        assert(section_has_type_prods(s));
    }
    lemma_first_where(s.part, part_matcher(pn), 0);
    if part_has_match(s.part[i], pn) {
        assert(section_first_match(s, pn) <= i);
        assert(section_has_match(s, pn));
    }
}

proof fn lemma_promotion_accepts_sections(pr: PromotionView, p: &Pas, i: int)
    requires
        promotion_accepts(pr, p),
        0 <= i < pr.promo_sections.len(),
    ensures
        section_accepts(pr.promo_sections[i], p),
{
    let row = row_view(p.item_name@);
    let pn = row_part_number(row, p);
    if section_has_type_prods(pr.promo_sections[i]) {
        assert(promotion_has_type_prods(pr));
    }
    lemma_first_where(pr.promo_sections, section_matcher(pn), 0);
    if section_has_match(pr.promo_sections[i], pn) {
        assert(promotion_first_match(pr, pn) <= i);
        assert(promotion_has_match(pr, pn));
    }
}

fn insert_into_promo_section(promo_seg: &mut PromoSection, p: &Pas) -> (r: Result<(), ParseIntError>)
    requires
        old(promo_seg).wf(),
        row_wf(p.item_name@),
        section_accepts(old(promo_seg)@, p),
    ensures
        final(promo_seg).wf(),
        (final(promo_seg)@, r) == section_after_row(
            old(promo_seg)@,
            row_part_number(row_view(p.item_name@), p),
            row_qty_text(row_view(p.item_name@), p),
            row_view(p.item_name@),
        ),
{
    let ghost row = row_view(p.item_name@);
    let ghost pn = row_part_number(row, p);
    let ghost qt = row_qty_text(row, p);
    let ghost old_seg = promo_seg@;
    proof { lemma_first_where(old_seg.part, part_matcher(pn), 0); }
    let n = promo_seg.part.len();
    let mut i: usize = 0;
    while i < n
        invariant
            old_seg == old(promo_seg)@,
            n == old_seg.part.len(),
            n == promo_seg.part@.len(),
            i <= n,
            row == row_view(p.item_name@),
            row_wf(p.item_name@),
            pn == row_part_number(row, p),
            qt == row_qty_text(row, p),
            section_accepts(old_seg, p),
            forall|j: int| 0 <= j < section_first_match(old_seg, pn) ==> !part_has_match(#[trigger] old_seg.part[j], pn),
            0 <= section_first_match(old_seg, pn) <= n,
            section_first_match(old_seg, pn) < n ==> part_has_match(old_seg.part[section_first_match(old_seg, pn)], pn),
            promo_seg.wf(),
            promo_seg@ == section_with_parts(old_seg, promo_seg@.part),
            spec_parse_i64(qt) is Err ==> forall|j: int| 0 <= j < i ==> !part_has_match(#[trigger] old_seg.part[j], pn),
            forall|j: int| 0 <= j < n ==> (#[trigger] promo_seg.part@[j])@ == (
                if j < i && spec_parse_i64(qt) is Ok { part_with_purchase(old_seg.part[j], pn, row, spec_parse_i64(qt)->Ok_0) }
                else { old_seg.part[j] }),
        decreases n - i,
    {
        proof { lemma_section_accepts_parts(old_seg, p, i as int); }
        let res = insert_into_promo_part(&mut promo_seg.part[i], p);
        match res {
            Ok(()) => {
                proof {
                    if spec_parse_i64(qt) is Err {
                        assert(!part_has_match(old_seg.part[i as int], pn));
                    }
                }
            },
            Err(e) => {
                proof {
                    let fm = section_first_match(old_seg, pn);
                    assert(part_has_match(old_seg.part[i as int], pn));
                    if fm > i {
                        assert(!part_has_match(old_seg.part[i as int], pn));
                    }
                    if fm < i {
                        assert(!part_has_match(old_seg.part[fm], pn));
                    }
                    assert(promo_seg@.part =~= old_seg.part.update(
                        i as int, part_with_first_row(old_seg.part[i as int], pn, row)));
                    assert(promo_seg@ == section_with_first_row(old_seg, pn, row));
                }
                return Err(e);
            },
        }
        i += 1;
    }
    proof {
        if spec_parse_i64(qt) is Err {
            assert(promo_seg@.part =~= old_seg.part);
        } else {
            assert(promo_seg@.part =~= old_seg.part.map_values(
                |pt: PartView| part_with_purchase(pt, pn, row, spec_parse_i64(qt)->Ok_0)));
        }
    }
    Ok(())
}

fn insert_into_promo_helper(promo_root: &mut Promotion, p: &Pas) -> (r: Result<(), ParseIntError>)
    requires
        old(promo_root).wf(),
        row_wf(p.item_name@),
        promotion_accepts(old(promo_root)@, p),
    ensures
        final(promo_root).wf(),
        (final(promo_root)@, r) == promotion_after_row(
            old(promo_root)@,
            row_part_number(row_view(p.item_name@), p),
            row_qty_text(row_view(p.item_name@), p),
            row_view(p.item_name@),
        ),
{
    let ghost row = row_view(p.item_name@);
    let ghost pn = row_part_number(row, p);
    let ghost qt = row_qty_text(row, p);
    let ghost old_pr = promo_root@;
    proof { lemma_first_where(old_pr.promo_sections, section_matcher(pn), 0); }
    let n = promo_root.promo_sections.len();
    let mut i: usize = 0;
    while i < n
        invariant
            old_pr == old(promo_root)@,
            n == old_pr.promo_sections.len(),
            n == promo_root.promo_sections@.len(),
            i <= n,
            row == row_view(p.item_name@),
            row_wf(p.item_name@),
            pn == row_part_number(row, p),
            qt == row_qty_text(row, p),
            promotion_accepts(old_pr, p),
            forall|j: int| 0 <= j < promotion_first_match(old_pr, pn) ==> !section_has_match(#[trigger] old_pr.promo_sections[j], pn),
            0 <= promotion_first_match(old_pr, pn) <= n,
            promotion_first_match(old_pr, pn) < n ==> section_has_match(old_pr.promo_sections[promotion_first_match(old_pr, pn)], pn),
            promo_root.wf(),
            promo_root@ == promotion_with_sections(old_pr, promo_root@.promo_sections),
            spec_parse_i64(qt) is Err ==> forall|j: int| 0 <= j < i ==> !section_has_match(#[trigger] old_pr.promo_sections[j], pn),
            forall|j: int| 0 <= j < n ==> (#[trigger] promo_root.promo_sections@[j])@ == (
                if j < i && spec_parse_i64(qt) is Ok { section_with_purchase(old_pr.promo_sections[j], pn, row, spec_parse_i64(qt)->Ok_0) }
                else { old_pr.promo_sections[j] }),
        decreases n - i,
    {
        proof { lemma_promotion_accepts_sections(old_pr, p, i as int); }
        let res = insert_into_promo_section(&mut promo_root.promo_sections[i], p);
        match res {
            Ok(()) => {
                proof {
                    if spec_parse_i64(qt) is Err {
                        assert(!section_has_match(old_pr.promo_sections[i as int], pn));
                    }
                }
            },
            Err(e) => {
                proof {
                    let fm = promotion_first_match(old_pr, pn);
                    assert(section_has_match(old_pr.promo_sections[i as int], pn));
                    if fm > i {
                        assert(!section_has_match(old_pr.promo_sections[i as int], pn));
                    }
                    if fm < i {
                        assert(!section_has_match(old_pr.promo_sections[fm], pn));
                    }
                    assert(promo_root@.promo_sections =~= old_pr.promo_sections.update(
                        i as int, section_with_first_row(old_pr.promo_sections[i as int], pn, row)));
                    assert(promo_root@ == promotion_with_first_row(old_pr, pn, row));
                }
                return Err(e);
            },
        }
        i += 1;
    }
    proof {
        if spec_parse_i64(qt) is Err {
            assert(promo_root@.promo_sections =~= old_pr.promo_sections);
        } else {
            assert(promo_root@.promo_sections =~= old_pr.promo_sections.map_values(
                |sc: PromoSectionView| section_with_purchase(sc, pn, row, spec_parse_i64(qt)->Ok_0)));
        }
    }
    Ok(())
}


/// Customers' promotions, by customer name.
pub type PromoMap = TextMap<Promotion>;

/// The map is sorted by name and every promotion in it is well formed.
pub open spec fn promo_map_wf(m: &PromoMap) -> bool {
    &&& m.wf()
    &&& forall|i: int| 0 <= i < m.values().len() ==> (#[trigger] m.values()[i]).wf()
}

/// The promotion that a purchase of `name` is recorded into: the customer's
/// own, or a fresh copy of the template for a new customer.
pub open spec fn base_promotion(m: Map<Seq<char>, PromotionView>, name: Seq<char>, template: PromotionView) -> PromotionView {
    if m.contains_key(name) { m[name] } else { template }
}

/// Records the purchase row of `p` for customer `customer_name`.  A customer
/// seen for the first time starts from a copy of `promo_template`.  A
/// quantity that does not read as an integer is reported only for a customer
/// already in the map; for a new customer it is ignored, though the row is
/// still recorded.
pub fn insert_into_promo(
    promo: &mut PromoMap,
    customer_name: String,
    promo_template: &Promotion,
    p: &Pas,
) -> (r: Result<(), Vec<ParseIntError>>)
    requires
        promo_map_wf(old(promo)),
        promo_template.wf(),
        row_wf(p.item_name@),
        promotion_accepts(base_promotion(old(promo).as_map(), customer_name@, promo_template@), p),
    ensures
        promo_map_wf(final(promo)),
        ({
            let row = row_view(p.item_name@);
            let after = promotion_after_row(
                base_promotion(old(promo).as_map(), customer_name@, promo_template@),
                row_part_number(row, p),
                row_qty_text(row, p),
                row,
            );
            &&& final(promo).as_map() == old(promo).as_map().insert(customer_name@, after.0)
            &&& match r {
                Ok(()) => !(old(promo).as_map().contains_key(customer_name@) && after.1 is Err),
                Err(errs) => old(promo).as_map().contains_key(customer_name@) && errs@.len() == 1
                    && after.1 == Err::<(), ParseIntError>(errs@[0]),
            }
        }),
{
    let kc = crate::text::chars_of(customer_name.as_str());
    match promo.search(kc.as_slice()) {
        Ok(i) => {
            proof {
                promo.lemma_lookup(i as int);
                promo.lemma_keys_vals();
            }
            let ghost before = *promo;
            let entry = promo.value_at_mut(i);
            let res = insert_into_promo_helper(entry, p);
            proof {
                before.lemma_wf_by_keys(promo);
                assert(promo.values() =~= before.values().update(i as int, promo.values()[i as int]));
                assert forall|j: int| 0 <= j < promo.values().len() implies (#[trigger] promo.values()[j]).wf() by {
                    if j != i {
                        assert(promo.values()[j] == before.values()[j]);
                    }
                }
                promo.lemma_lookup(i as int);
                assert(promo.as_map() =~= before.as_map().insert(customer_name@, promo.values()[i as int]@)) by {
                    assert forall|k: Seq<char>| #[trigger] promo.as_map().contains_key(k) implies
                        promo.as_map()[k] == before.as_map().insert(customer_name@, promo.values()[i as int]@)[k] by {
                        let j = choose|j: int| 0 <= j < promo.keys().len() && promo.keys()[j] == k;
                        promo.lemma_lookup(j);
                        before.lemma_lookup(j);
                    }
                }
            }
            match res {
                Ok(()) => Ok(()),
                Err(err) => {
                    let mut errors: Vec<ParseIntError> = Vec::new();
                    errors.push(err);
                    Err(errors)
                },
            }
        },
        Err(i) => {
            let mut cl = promo_template.duplicate();
            let _ = insert_into_promo_helper(&mut cl, p);
            let ghost before = *promo;
            proof { before.lemma_keys_vals(); }
            promo.insert_at(i, customer_name, cl);
            proof {
                promo.lemma_keys_vals();
                assert forall|j: int| 0 <= j < promo.values().len() implies (#[trigger] promo.values()[j]).wf() by {
                    if j < i {
                        assert(promo.values()[j] == before.values()[j]);
                    } else if j > i {
                        assert(promo.values()[j] == before.values()[j - 1]);
                    }
                }
            }
            Ok(())
        },
    }
}


pub(crate) proof fn lemma_first_where_exists<T>(s: Seq<T>, f: spec_fn(T) -> bool)
    ensures
        (first_where(s, f, 0) < s.len()) <==> (exists|i: int| 0 <= i < s.len() && f(#[trigger] s[i])),
{
    lemma_first_where(s, f, 0);
    if exists|i: int| 0 <= i < s.len() && f(#[trigger] s[i]) {
        let i = choose|i: int| 0 <= i < s.len() && f(#[trigger] s[i]);
        if first_where(s, f, 0) > i {
            assert(!f(s[i]));
        }
    }
}

/// Whether some group of the part takes `pn`.
fn part_takes(part: &Part, pn: &String) -> (b: bool)
    ensures
        b == part_has_match(part@, pn@),
{
    let mut i: usize = 0;
    while i < part.type_prod.len()
        invariant
            i <= part.type_prod@.len(),
            forall|j: int| 0 <= j < i ==> !tp_matches(#[trigger] part@.type_prod[j], pn@),
        decreases part.type_prod@.len() - i,
    {
        if contains_text(&part.type_prod[i].part_numbers, pn) {
            proof {
                lemma_first_where_exists(part@.type_prod, tp_matcher(pn@));
                assert(tp_matcher(pn@)(part@.type_prod[i as int]));
            }
            return true;
        }
        i += 1;
    }
    proof {
        lemma_first_where_exists(part@.type_prod, tp_matcher(pn@));
        assert forall|j: int| 0 <= j < part@.type_prod.len() implies !tp_matcher(pn@)(#[trigger] part@.type_prod[j]) by {
            assert(!tp_matches(part@.type_prod[j], pn@));
        }
    }
    false
}

/// Whether adding `q` to every group of the part that takes `pn` keeps the
/// totals in the `i64` range.
fn part_fits_exec(part: &Part, pn: &String, q: i64) -> (b: bool)
    ensures
        b == part_fits(part@, pn@, q as int),
{
    let mut i: usize = 0;
    while i < part.type_prod.len()
        invariant
            i <= part.type_prod@.len(),
            forall|t: int| 0 <= t < i && tp_matches(#[trigger] part@.type_prod[t], pn@)
                ==> in_i64(part@.type_prod[t].total_qty + q),
        decreases part.type_prod@.len() - i,
    {
        if contains_text(&part.type_prod[i].part_numbers, pn) {
            if part.type_prod[i].total_qty.checked_add(q).is_none() {
                assert(!in_i64(part@.type_prod[i as int].total_qty + q));
                assert(tp_matches(part@.type_prod[i as int], pn@));
                return false;
            }
        }
        i += 1;
    }
    true
}

/// Whether some part of the section takes `pn`.
fn section_takes(s: &PromoSection, pn: &String) -> (b: bool)
    ensures
        b == section_has_match(s@, pn@),
{
    let mut i: usize = 0;
    while i < s.part.len()
        invariant
            i <= s.part@.len(),
            forall|j: int| 0 <= j < i ==> !part_has_match(#[trigger] s@.part[j], pn@),
        decreases s.part@.len() - i,
    {
        if part_takes(&s.part[i], pn) {
            proof {
                lemma_first_where_exists(s@.part, part_matcher(pn@));
                assert(part_matcher(pn@)(s@.part[i as int]));
            }
            return true;
        }
        i += 1;
    }
    proof {
        lemma_first_where_exists(s@.part, part_matcher(pn@));
        assert forall|j: int| 0 <= j < s@.part.len() implies !part_matcher(pn@)(#[trigger] s@.part[j]) by {
            assert(!part_has_match(s@.part[j], pn@));
        }
    }
    false
}

/// Whether some part of the section has a group.
fn section_has_groups(s: &PromoSection) -> (b: bool)
    ensures
        b == section_has_type_prods(s@),
{
    let mut i: usize = 0;
    while i < s.part.len()
        invariant
            i <= s.part@.len(),
            forall|j: int| 0 <= j < i ==> !part_has_type_prods(#[trigger] s@.part[j]),
        decreases s.part@.len() - i,
    {
        if s.part[i].type_prod.len() > 0 {
            assert(part_has_type_prods(s@.part[i as int]));
            return true;
        }
        i += 1;
    }
    false
}

fn section_fits_exec(s: &PromoSection, pn: &String, q: i64) -> (b: bool)
    ensures
        b == section_fits(s@, pn@, q as int),
{
    let mut i: usize = 0;
    while i < s.part.len()
        invariant
            i <= s.part@.len(),
            forall|j: int| 0 <= j < i ==> part_fits(#[trigger] s@.part[j], pn@, q as int),
        decreases s.part@.len() - i,
    {
        if !part_fits_exec(&s.part[i], pn, q) {
            assert(!part_fits(s@.part[i as int], pn@, q as int));
            return false;
        }
        i += 1;
    }
    true
}

/// Whether some section of the promotion has a group.
fn promotion_has_groups(promo: &Promotion) -> (b: bool)
    ensures
        b == promotion_has_type_prods(promo@),
{
    let mut i: usize = 0;
    while i < promo.promo_sections.len()
        invariant
            i <= promo.promo_sections@.len(),
            forall|j: int| 0 <= j < i ==> !section_has_type_prods(#[trigger] promo@.promo_sections[j]),
        decreases promo.promo_sections@.len() - i,
    {
        if section_has_groups(&promo.promo_sections[i]) {
            assert(section_has_type_prods(promo@.promo_sections[i as int]));
            return true;
        }
        i += 1;
    }
    false
}

/// Whether some section of the promotion takes `pn`.
fn promotion_takes(promo: &Promotion, pn: &String) -> (b: bool)
    ensures
        b == promotion_has_match(promo@, pn@),
{
    let mut i: usize = 0;
    while i < promo.promo_sections.len()
        invariant
            i <= promo.promo_sections@.len(),
            forall|j: int| 0 <= j < i ==> !section_has_match(#[trigger] promo@.promo_sections[j], pn@),
        decreases promo.promo_sections@.len() - i,
    {
        if section_takes(&promo.promo_sections[i], pn) {
            proof {
                lemma_first_where_exists(promo@.promo_sections, section_matcher(pn@));
                assert(section_matcher(pn@)(promo@.promo_sections[i as int]));
            }
            return true;
        }
        i += 1;
    }
    proof {
        lemma_first_where_exists(promo@.promo_sections, section_matcher(pn@));
        assert forall|j: int| 0 <= j < promo@.promo_sections.len() implies !section_matcher(pn@)(#[trigger] promo@.promo_sections[j]) by {
            assert(!section_has_match(promo@.promo_sections[j], pn@));
        }
    }
    false
}

fn promotion_fits_exec(promo: &Promotion, pn: &String, q: i64) -> (b: bool)
    ensures
        b == promotion_fits(promo@, pn@, q as int),
{
    let mut i: usize = 0;
    while i < promo.promo_sections.len()
        invariant
            i <= promo.promo_sections@.len(),
            forall|j: int| 0 <= j < i ==> section_fits(#[trigger] promo@.promo_sections[j], pn@, q as int),
        decreases promo.promo_sections@.len() - i,
    {
        if !section_fits_exec(&promo.promo_sections[i], pn, q) {
            assert(!section_fits(promo@.promo_sections[i as int], pn@, q as int));
            return false;
        }
        i += 1;
    }
    true
}

proof fn lemma_match_has_groups(pr: PromotionView, pn: Seq<char>)
    ensures
        promotion_has_match(pr, pn) ==> promotion_has_type_prods(pr),
{
    if promotion_has_match(pr, pn) {
        lemma_first_where(pr.promo_sections, section_matcher(pn), 0);
        let i = promotion_first_match(pr, pn);
        let sec = pr.promo_sections[i];
        lemma_first_where(sec.part, part_matcher(pn), 0);
        let j = section_first_match(sec, pn);
        assert(part_has_match(sec.part[j], pn));
        assert(part_has_type_prods(sec.part[j]));
        assert(section_has_type_prods(sec));
    }
}

/// Whether recording the row of `p` into `promo` reads only cells that
/// exist and keeps every total an `i64` (see `promotion_accepts`).
pub fn promotion_accepts_row(promo: &Promotion, p: &Pas) -> (b: bool)
    ensures
        b == promotion_accepts(promo@, p),
{
    let ghost row = row_view(p.item_name@);
    if p.part_number_index >= p.item_name.len() {
        let any_tp = promotion_has_groups(promo);
        proof { lemma_match_has_groups(promo@, row_part_number(row, p)); }
        return !any_tp;
    }
    let pn = &p.item_name[p.part_number_index].value;
    assert(pn@ == row_part_number(row, p));
    if !promotion_takes(promo, pn) {
        return true;
    }
    if p.qty_index >= p.item_name.len() {
        return false;
    }
    assert(p.item_name[p.qty_index as int].value@ == row_qty_text(row, p));
    match parse_i64(p.item_name[p.qty_index].value.as_str()) {
        Err(_) => true,
        Ok(q) => promotion_fits_exec(promo, pn, q),
    }
}

/// Whether `insert_into_promo` may record the row of `p` for
/// `customer_name`: the promotion it records into accepts the row.
pub fn can_insert_into_promo(promo: &PromoMap, customer_name: &str, promo_template: &Promotion, p: &Pas) -> (b: bool)
    requires
        promo_map_wf(promo),
    ensures
        b == promotion_accepts(base_promotion(promo.as_map(), customer_name@, promo_template@), p),
{
    match promo.get(customer_name) {
        Some(existing) => promotion_accepts_row(existing, p),
        None => promotion_accepts_row(promo_template, p),
    }
}

/// Recording a row whose quantity reads as `q` adds `q` to the total, and
/// appends the row to the purchases, of every product group, in every
/// section and part, whose part numbers hold the row's part number; every
/// other group, and the sections, parts and groups themselves, stay as they
/// were.  It is no error.
pub proof fn lemma_purchase_reaches_every_group(p: PromotionView, pn: Seq<char>, qty_text: Seq<char>, row: Seq<ColumnDataView>)
    requires
        spec_parse_i64(qty_text) is Ok,
        promotion_fits(p, pn, spec_parse_i64(qty_text)->Ok_0),
    ensures
        ({
            let q = spec_parse_i64(qty_text)->Ok_0;
            let r = promotion_after_row(p, pn, qty_text, row);
            &&& r.1 is Ok
            &&& r.0.start_date == p.start_date
            &&& r.0.end_date == p.end_date
            &&& r.0.promo_sections.len() == p.promo_sections.len()
            &&& forall|j: int| 0 <= j < p.promo_sections.len() ==> {
                &&& (#[trigger] r.0.promo_sections[j]).part.len() == p.promo_sections[j].part.len()
                &&& r.0.promo_sections[j].times_section_qualified == p.promo_sections[j].times_section_qualified
                &&& r.0.promo_sections[j].promo_parts_still_needed == p.promo_sections[j].promo_parts_still_needed
            }
            &&& forall|j: int, k: int| 0 <= j < p.promo_sections.len() && 0 <= k < p.promo_sections[j].part.len() ==> {
                let a = p.promo_sections[j].part[k];
                let b = #[trigger] r.0.promo_sections[j].part[k];
                &&& b.type_prod.len() == a.type_prod.len()
                &&& b.part_type == a.part_type
                &&& b.times_parts_qualified == a.times_parts_qualified
                &&& b.qty_parts_still_needed == a.qty_parts_still_needed
                &&& b.type_prods_for_next_promo_needed == a.type_prods_for_next_promo_needed
            }
            &&& forall|j: int, k: int, t: int|
                0 <= j < p.promo_sections.len() && 0 <= k < p.promo_sections[j].part.len()
                    && 0 <= t < p.promo_sections[j].part[k].type_prod.len() ==> {
                let g = p.promo_sections[j].part[k].type_prod[t];
                let h = #[trigger] r.0.promo_sections[j].part[k].type_prod[t];
                if g.part_numbers.contains(pn) {
                    &&& h.total_qty == g.total_qty + q
                    &&& h.found_numbers == g.found_numbers.push(row)
                    &&& h.part_numbers == g.part_numbers
                    &&& h.qty_needed == g.qty_needed
                    &&& h.times_qualified == g.times_qualified
                } else {
                    h == g
                }
            }
        }),
{
    let q = spec_parse_i64(qty_text)->Ok_0;
    let r = promotion_after_row(p, pn, qty_text, row).0;
    assert forall|j: int, k: int, t: int|
        0 <= j < p.promo_sections.len() && 0 <= k < p.promo_sections[j].part.len()
            && 0 <= t < p.promo_sections[j].part[k].type_prod.len() implies {
        let g = p.promo_sections[j].part[k].type_prod[t];
        let h = #[trigger] r.promo_sections[j].part[k].type_prod[t];
        if g.part_numbers.contains(pn) {
            &&& h.total_qty == g.total_qty + q
            &&& h.found_numbers == g.found_numbers.push(row)
            &&& h.part_numbers == g.part_numbers
            &&& h.qty_needed == g.qty_needed
            &&& h.times_qualified == g.times_qualified
        } else {
            h == g
        }
    } by {
        let g = p.promo_sections[j].part[k].type_prod[t];
        if g.part_numbers.contains(pn) {
            assert(section_fits(p.promo_sections[j], pn, q));
            assert(part_fits(p.promo_sections[j].part[k], pn, q));
            assert(tp_matches(g, pn));
            assert(in_i64(g.total_qty + q));
        }
    }
}

/// The groups of the promotion that take `pn`, in section, part and group
/// order: `(j, k, t)` comes before `(j2, k2, t2)`.
pub open spec fn group_before(j: int, k: int, t: int, j2: int, k2: int, t2: int) -> bool {
    j < j2 || (j == j2 && k < k2) || (j == j2 && k == k2 && t < t2)
}

/// No group of the part takes `pn` when the part has no match.
proof fn lemma_part_without_match(pt: PartView, pn: Seq<char>)
    requires
        !part_has_match(pt, pn),
    ensures
        forall|t: int| 0 <= t < pt.type_prod.len() ==> !(#[trigger] pt.type_prod[t]).part_numbers.contains(pn),
{
    lemma_first_where(pt.type_prod, tp_matcher(pn), 0);
    assert forall|t: int| 0 <= t < pt.type_prod.len() implies !(#[trigger] pt.type_prod[t]).part_numbers.contains(pn) by {
        assert(!tp_matcher(pn)(pt.type_prod[t]));
    }
}

/// No group of the section takes `pn` when the section has no match.
proof fn lemma_section_without_match(sc: PromoSectionView, pn: Seq<char>)
    requires
        !section_has_match(sc, pn),
    ensures
        forall|k: int, t: int| 0 <= k < sc.part.len() && 0 <= t < sc.part[k].type_prod.len()
            ==> !(#[trigger] sc.part[k].type_prod[t]).part_numbers.contains(pn),
{
    lemma_first_where(sc.part, part_matcher(pn), 0);
    assert forall|k: int, t: int| 0 <= k < sc.part.len() && 0 <= t < sc.part[k].type_prod.len()
        implies !(#[trigger] sc.part[k].type_prod[t]).part_numbers.contains(pn) by {
        assert(!part_matcher(pn)(sc.part[k]));
        lemma_part_without_match(sc.part[k], pn);
    }
}

/// Recording a row whose quantity does not read, when some group takes its
/// part number, appends the row to the first such group (in section, part
/// and group order) and to no other, changes no total, and gives the
/// reading error.
pub proof fn lemma_unreadable_quantity_first_group(p: PromotionView, pn: Seq<char>, qty_text: Seq<char>, row: Seq<ColumnDataView>)
    requires
        spec_parse_i64(qty_text) is Err,
        promotion_has_match(p, pn),
    ensures
        ({
            let r = promotion_after_row(p, pn, qty_text, row);
            &&& r.1 == Err::<(), ParseIntError>(spec_parse_i64(qty_text)->Err_0)
            &&& r.0.promo_sections.len() == p.promo_sections.len()
            &&& forall|j: int| 0 <= j < p.promo_sections.len() ==> (#[trigger] r.0.promo_sections[j]).part.len() == p.promo_sections[j].part.len()
            &&& forall|j: int, k: int| 0 <= j < p.promo_sections.len() && 0 <= k < p.promo_sections[j].part.len()
                ==> (#[trigger] r.0.promo_sections[j].part[k]).type_prod.len() == p.promo_sections[j].part[k].type_prod.len()
            &&& exists|j0: int, k0: int, t0: int| {
                &&& 0 <= j0 < p.promo_sections.len()
                &&& 0 <= k0 < p.promo_sections[j0].part.len()
                &&& 0 <= t0 < p.promo_sections[j0].part[k0].type_prod.len()
                &&& (#[trigger] p.promo_sections[j0].part[k0].type_prod[t0]).part_numbers.contains(pn)
                &&& forall|j: int, k: int, t: int|
                    0 <= j < p.promo_sections.len() && 0 <= k < p.promo_sections[j].part.len()
                        && 0 <= t < p.promo_sections[j].part[k].type_prod.len() ==> {
                    let g = p.promo_sections[j].part[k].type_prod[t];
                    let h = #[trigger] r.0.promo_sections[j].part[k].type_prod[t];
                    &&& group_before(j, k, t, j0, k0, t0) ==> !g.part_numbers.contains(pn)
                    &&& h == if j == j0 && k == k0 && t == t0 { crate::insert_into_promo::tp_with_row(g, row) } else { g }
                }
            }
        }),
{
    let r = promotion_after_row(p, pn, qty_text, row).0;
    lemma_first_where(p.promo_sections, section_matcher(pn), 0);
    let j0 = promotion_first_match(p, pn);
    let sc = p.promo_sections[j0];
    assert(section_matcher(pn)(sc));
    lemma_first_where(sc.part, part_matcher(pn), 0);
    let k0 = section_first_match(sc, pn);
    let pt = sc.part[k0];
    assert(part_matcher(pn)(pt));
    lemma_first_where(pt.type_prod, tp_matcher(pn), 0);
    let t0 = part_first_match(pt, pn);
    assert(tp_matcher(pn)(pt.type_prod[t0]));
    assert forall|j: int, k: int, t: int|
        0 <= j < p.promo_sections.len() && 0 <= k < p.promo_sections[j].part.len()
            && 0 <= t < p.promo_sections[j].part[k].type_prod.len() implies {
        let g = p.promo_sections[j].part[k].type_prod[t];
        let h = #[trigger] r.promo_sections[j].part[k].type_prod[t];
        &&& group_before(j, k, t, j0, k0, t0) ==> !g.part_numbers.contains(pn)
        &&& h == if j == j0 && k == k0 && t == t0 { crate::insert_into_promo::tp_with_row(g, row) } else { g }
    } by {
        if j < j0 {
            assert(!section_matcher(pn)(p.promo_sections[j]));
            lemma_section_without_match(p.promo_sections[j], pn);
        } else if j == j0 && k < k0 {
            assert(!part_matcher(pn)(sc.part[k]));
            lemma_part_without_match(sc.part[k], pn);
        } else if j == j0 && k == k0 && t < t0 {
            assert(!tp_matcher(pn)(pt.type_prod[t]));
        }
    }
    assert(p.promo_sections[j0].part[k0].type_prod[t0].part_numbers.contains(pn));
}

} // verus!
