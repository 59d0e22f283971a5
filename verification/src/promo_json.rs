//! The promotion rules read from a promotion file, together with the
//! purchases matched against them and the results computed from those.
use vstd::prelude::*;
use crate::and_or::AndOrType;
use crate::column_data::{ColumnData, ColumnDataView};
use crate::dates::PromoDateNative;

verus! {

/// A promotion: its dates and its sections.
pub struct Promotion {
    pub start_date: PromoDateNative,
    pub end_date: PromoDateNative,
    pub promo_sections: Vec<PromoSection>,
}

/// A section of a promotion: parts that must all be bought.
pub struct PromoSection {
    /// Indices of the parts that hold the section back.
    pub promo_parts_still_needed: Vec<usize>,
    /// How many times the section is qualified for.
    pub times_section_qualified: i64,
    pub part: Vec<Part>,
}

/// A part of a section: product groups combined as `part_type` says.
pub struct Part {
    pub part_type: AndOrType,
    pub type_prod: Vec<TypeProd>,
    pub qty_parts_still_needed: i64,
    /// How many times the part is qualified for.
    pub times_parts_qualified: i64,
    /// Indices of the product groups that the next qualification needs.
    pub type_prods_for_next_promo_needed: Vec<i64>,
}

/// A product group: part numbers of which `qty_needed` units qualify once.
pub struct TypeProd {
    pub qty_needed: i64,
    pub part_numbers: Vec<String>,
    /// The purchase rows whose part number is one of `part_numbers`.
    pub found_numbers: Vec<Vec<ColumnData>>,
    /// The units bought of these part numbers.
    pub total_qty: i64,
    /// How many times the group is qualified for.
    pub times_qualified: i64,
}

pub struct TypeProdView {
    pub qty_needed: i64,
    pub part_numbers: Seq<Seq<char>>,
    pub found_numbers: Seq<Seq<ColumnDataView>>,
    pub total_qty: i64,
    pub times_qualified: i64,
}

pub struct PartView {
    pub part_type: AndOrType,
    pub type_prod: Seq<TypeProdView>,
    pub qty_parts_still_needed: i64,
    pub times_parts_qualified: i64,
    pub type_prods_for_next_promo_needed: Seq<i64>,
}

pub struct PromoSectionView {
    pub promo_parts_still_needed: Seq<usize>,
    pub times_section_qualified: i64,
    pub part: Seq<PartView>,
}

pub struct PromotionView {
    pub start_date: PromoDateNative,
    pub end_date: PromoDateNative,
    pub promo_sections: Seq<PromoSectionView>,
}

pub open spec fn row_view(row: Seq<ColumnData>) -> Seq<ColumnDataView> {
    row.map_values(|c: ColumnData| c@)
}

/// The texts of a list of strings.
pub open spec fn texts_view(v: Seq<String>) -> Seq<Seq<char>> {
    v.map_values(|s: String| s@)
}

pub open spec fn row_wf(row: Seq<ColumnData>) -> bool {
    forall|i: int| 0 <= i < row.len() ==> (#[trigger] row[i]).wf()
}

impl View for TypeProd {
    type V = TypeProdView;

    open spec fn view(&self) -> TypeProdView {
        TypeProdView {
            qty_needed: self.qty_needed,
            part_numbers: texts_view(self.part_numbers@),
            found_numbers: self.found_numbers@.map_values(|r: Vec<ColumnData>| row_view(r@)),
            total_qty: self.total_qty,
            times_qualified: self.times_qualified,
        }
    }
}

impl View for Part {
    type V = PartView;

    open spec fn view(&self) -> PartView {
        PartView {
            part_type: self.part_type,
            type_prod: self.type_prod@.map_values(|t: TypeProd| t@),
            qty_parts_still_needed: self.qty_parts_still_needed,
            times_parts_qualified: self.times_parts_qualified,
            type_prods_for_next_promo_needed: self.type_prods_for_next_promo_needed@,
        }
    }
}

impl View for PromoSection {
    type V = PromoSectionView;

    open spec fn view(&self) -> PromoSectionView {
        PromoSectionView {
            promo_parts_still_needed: self.promo_parts_still_needed@,
            times_section_qualified: self.times_section_qualified,
            part: self.part@.map_values(|p: Part| p@),
        }
    }
}

impl View for Promotion {
    type V = PromotionView;

    open spec fn view(&self) -> PromotionView {
        PromotionView {
            start_date: self.start_date,
            end_date: self.end_date,
            promo_sections: self.promo_sections@.map_values(|s: PromoSection| s@),
        }
    }
}

impl TypeProd {
    /// Every stored purchase row is well formed.
    pub open spec fn wf(&self) -> bool {
        forall|i: int| 0 <= i < self.found_numbers@.len() ==> row_wf(#[trigger] self.found_numbers@[i]@)
    }
}

impl Part {
    pub open spec fn wf(&self) -> bool {
        forall|i: int| 0 <= i < self.type_prod@.len() ==> (#[trigger] self.type_prod@[i]).wf()
    }
}

impl PromoSection {
    pub open spec fn wf(&self) -> bool {
        forall|i: int| 0 <= i < self.part@.len() ==> (#[trigger] self.part@[i]).wf()
    }
}

impl Promotion {
    pub open spec fn wf(&self) -> bool {
        forall|i: int| 0 <= i < self.promo_sections@.len() ==> (#[trigger] self.promo_sections@[i]).wf()
    }
}

/// A copy of a row of cells.
pub fn duplicate_row(row: &Vec<ColumnData>) -> (r: Vec<ColumnData>)
    requires
        row_wf(row@),
    ensures
        row_wf(r@),
        row_view(r@) == row_view(row@),
{
    let mut r: Vec<ColumnData> = Vec::new();
    let mut i: usize = 0;
    while i < row.len()
        invariant
            i <= row@.len(),
            row_wf(row@),
            r@.len() == i,
            row_wf(r@),
            forall|j: int| 0 <= j < i ==> (#[trigger] r@[j])@ == row@[j]@,
        decreases row@.len() - i,
    {
        r.push(row[i].duplicate());
        i += 1;
    }
    assert(row_view(r@) =~= row_view(row@));
    r
}

/// A copy of a list of strings.
pub fn duplicate_strings(v: &Vec<String>) -> (r: Vec<String>)
    ensures
        texts_view(r@) == texts_view(v@),
{
    let mut r: Vec<String> = Vec::new();
    let mut i: usize = 0;
    while i < v.len()
        invariant
            i <= v@.len(),
            r@.len() == i,
            forall|j: int| 0 <= j < i ==> (#[trigger] r@[j])@ == v@[j]@,
        decreases v@.len() - i,
    {
        r.push(v[i].clone());
        i += 1;
    }
    assert(texts_view(r@) =~= texts_view(v@));
    r
}

fn duplicate_copies<T: Copy>(v: &Vec<T>) -> (r: Vec<T>)
    ensures
        r@ == v@,
{
    let mut r: Vec<T> = Vec::new();
    let mut i: usize = 0;
    while i < v.len()
        invariant
            i <= v@.len(),
            r@ == v@.take(i as int),
        decreases v@.len() - i,
    {
        r.push(v[i]);
        i += 1;
        assert(v@.take(i as int) == v@.take(i - 1).push(v@[i - 1]));
    }
    assert(v@.take(v@.len() as int) == v@);
    r
}

impl TypeProd {
    /// A copy of the product group.
    pub fn duplicate(&self) -> (t: Self)
        requires
            self.wf(),
        ensures
            t.wf(),
            t@ == self@,
    {
        let mut found: Vec<Vec<ColumnData>> = Vec::new();
        let mut i: usize = 0;
        while i < self.found_numbers.len()
            invariant
                self.wf(),
                i <= self.found_numbers@.len(),
                found@.len() == i,
                forall|j: int| 0 <= j < i ==> row_wf((#[trigger] found@[j])@),
                forall|j: int| 0 <= j < i ==> row_view((#[trigger] found@[j])@) == row_view(self.found_numbers@[j]@),
            decreases self.found_numbers@.len() - i,
        {
            found.push(duplicate_row(&self.found_numbers[i]));
            i += 1;
        }
        let t = TypeProd {
            qty_needed: self.qty_needed,
            part_numbers: duplicate_strings(&self.part_numbers),
            found_numbers: found,
            total_qty: self.total_qty,
            times_qualified: self.times_qualified,
        };
        assert(t@.found_numbers =~= self@.found_numbers);
        t
    }
}

impl Part {
    /// A copy of the part.
    pub fn duplicate(&self) -> (p: Self)
        requires
            self.wf(),
        ensures
            p.wf(),
            p@ == self@,
    {
        let mut tps: Vec<TypeProd> = Vec::new();
        let mut i: usize = 0;
        while i < self.type_prod.len()
            invariant
                self.wf(),
                i <= self.type_prod@.len(),
                tps@.len() == i,
                forall|j: int| 0 <= j < i ==> (#[trigger] tps@[j]).wf(),
                forall|j: int| 0 <= j < i ==> (#[trigger] tps@[j])@ == self.type_prod@[j]@,
            decreases self.type_prod@.len() - i,
        {
            tps.push(self.type_prod[i].duplicate());
            i += 1;
        }
        let p = Part {
            part_type: self.part_type,
            type_prod: tps,
            qty_parts_still_needed: self.qty_parts_still_needed,
            times_parts_qualified: self.times_parts_qualified,
            type_prods_for_next_promo_needed: duplicate_copies(&self.type_prods_for_next_promo_needed),
        };
        assert(p@.type_prod =~= self@.type_prod);
        p
    }
}

impl PromoSection {
    /// A copy of the section.
    pub fn duplicate(&self) -> (s: Self)
        requires
            self.wf(),
        ensures
            s.wf(),
            s@ == self@,
    {
        let mut parts: Vec<Part> = Vec::new();
        let mut i: usize = 0;
        while i < self.part.len()
            invariant
                self.wf(),
                i <= self.part@.len(),
                parts@.len() == i,
                forall|j: int| 0 <= j < i ==> (#[trigger] parts@[j]).wf(),
                forall|j: int| 0 <= j < i ==> (#[trigger] parts@[j])@ == self.part@[j]@,
            decreases self.part@.len() - i,
        {
            parts.push(self.part[i].duplicate());
            i += 1;
        }
        let s = PromoSection {
            promo_parts_still_needed: duplicate_copies(&self.promo_parts_still_needed),
            times_section_qualified: self.times_section_qualified,
            part: parts,
        };
        assert(s@.part =~= self@.part);
        s
    }
}

impl Promotion {
    /// A copy of the promotion.
    pub fn duplicate(&self) -> (p: Self)
        requires
            self.wf(),
        ensures
            p.wf(),
            p@ == self@,
    {
        let mut secs: Vec<PromoSection> = Vec::new();
        let mut i: usize = 0;
        while i < self.promo_sections.len()
            invariant
                self.wf(),
                i <= self.promo_sections@.len(),
                secs@.len() == i,
                forall|j: int| 0 <= j < i ==> (#[trigger] secs@[j]).wf(),
                forall|j: int| 0 <= j < i ==> (#[trigger] secs@[j])@ == self.promo_sections@[j]@,
            decreases self.promo_sections@.len() - i,
        {
            secs.push(self.promo_sections[i].duplicate());
            i += 1;
        }
        let p = Promotion { start_date: self.start_date, end_date: self.end_date, promo_sections: secs };
        assert(p@.promo_sections =~= self@.promo_sections);
        p
    }
}

} // verus!
