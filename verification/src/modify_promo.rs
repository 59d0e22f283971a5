//! Working out, once all purchases are recorded, how many times each product
//! group, part and section of a promotion is qualified for.
use vstd::prelude::*;
use crate::and_or::AndOrType;
use crate::insert_into_promo::{first_where, lemma_first_where, part_with_type_prods, PromoMap, promo_map_wf};
use crate::promo_json::{Part, PartView, PromoSection, PromoSectionView, Promotion, PromotionView, TypeProdView};
use crate::text::{in_i64, ParseIntError};

verus! {

/// `total / needed` rounded down, for a non-zero `needed`.
pub open spec fn floor_div(total: int, needed: int) -> int {
    if needed > 0 { total / needed } else { (-total) / (-needed) }
}

/// How many times `total` units cover `needed` units: the quotient rounded
/// down.  The division is done in floating point, so a zero `needed` gives
/// `i64::MAX`, `i64::MIN` or `0` for a positive, negative or zero `total`, and
/// a quotient beyond the `i64` range stops at its bound.
pub open spec fn qualified_times(total: i64, needed: i64) -> i64 {
    if needed == 0 {
        if total > 0 { i64::MAX } else if total < 0 { i64::MIN } else { 0 }
    } else {
        let q = floor_div(total as int, needed as int);
        if q > i64::MAX { i64::MAX } else if q < i64::MIN { i64::MIN } else { q as i64 }
    }
}

proof fn lemma_negative_floor(c: int, b: int)
    requires
        c > 0,
        b > 0,
    ensures
        -((c + b - 1) / b) == (-c) / b,
{
    let q = (c + b - 1) / b;
    let r = (c + b - 1) % b;
    vstd::arithmetic::div_mod::lemma_fundamental_div_mod(c + b - 1, b);
    assert(0 <= r < b);
    assert(c + b - 1 == b * q + r);
    assert(-c == (-q) * b + (b - 1 - r)) by (nonlinear_arith)
        requires
            c + b - 1 == b * q + r,
    ;
    vstd::arithmetic::div_mod::lemma_fundamental_div_mod_converse(-c, b, -q, b - 1 - r);
}

/// A group with a positive quantity needed is qualified for as many whole
/// times as its total covers that quantity: `t * needed <= total <
/// (t + 1) * needed`.
pub proof fn lemma_qualified_times_covers(total: i64, needed: i64)
    requires
        needed > 0,
    ensures
        qualified_times(total, needed) * needed <= total,
        total < (qualified_times(total, needed) + 1) * needed,
{
    let q = (total as int) / (needed as int);
    let r = (total as int) % (needed as int);
    vstd::arithmetic::div_mod::lemma_fundamental_div_mod(total as int, needed as int);
    assert(0 <= r < needed);
    assert(total == needed * q + r);
    assert(i64::MIN <= q <= i64::MAX) by (nonlinear_arith)
        requires
            total == needed * q + r,
            0 <= r < needed,
            needed >= 1,
            i64::MIN <= total <= i64::MAX,
    {
        if q > i64::MAX {
            assert(needed * q >= q);
        }
        if q < i64::MIN {
            assert(needed * q <= q);
        }
    }
    assert(qualified_times(total, needed) == q);
    assert(q * needed <= total < (q + 1) * needed) by (nonlinear_arith)
        requires
            total == needed * q + r,
            0 <= r < needed,
    ;
}

/// The number of times `total` units cover `needed` units (see
/// `qualified_times`).
pub fn qualified_times_of(total: i64, needed: i64) -> (t: i64)
    ensures
        t == qualified_times(total, needed),
{
    if needed == 0 {
        if total > 0 {
            i64::MAX
        } else if total < 0 {
            i64::MIN
        } else {
            0
        }
    } else {
        let a: i128 = if needed > 0 { total as i128 } else { -(total as i128) };
        let b: i128 = if needed > 0 { needed as i128 } else { -(needed as i128) };
        assert(a / b == floor_div(total as int, needed as int));
        let q: i128 = if a >= 0 {
            ((a as u128) / (b as u128)) as i128
        } else {
            let c: u128 = (-a) as u128;
            proof { lemma_negative_floor(c as int, b as int); }
            assert((c + b - 1) / (b as int) <= c + b - 1) by {
                vstd::arithmetic::div_mod::lemma_div_is_ordered_by_denominator((c + b - 1) as int, 1, b as int);
                vstd::arithmetic::div_mod::lemma_div_basics((c + b - 1) as int);
            }
            -(((c + (b as u128) - 1) / (b as u128)) as i128)
        };
        assert(q == a / b);
        if q > i64::MAX as i128 {
            i64::MAX
        } else if q < i64::MIN as i128 {
            i64::MIN
        } else {
            q as i64
        }
    }
}


/// The smallest value of `s`, or `0` for an empty `s`.
pub open spec fn seq_min(s: Seq<i64>) -> i64
    decreases s.len(),
{
    if s.len() == 0 {
        0
    } else if s.len() == 1 {
        s[0]
    } else {
        let m = seq_min(s.drop_last());
        if s.last() < m { s.last() } else { m }
    }
}

/// The sum of `s`.
pub open spec fn seq_sum(s: Seq<i64>) -> int
    decreases s.len(),
{
    if s.len() == 0 { 0 } else { seq_sum(s.drop_last()) + s.last() }
}

/// Adding up `s` from the left never leaves the `i64` range.
pub open spec fn sums_fit(s: Seq<i64>) -> bool {
    forall|k: int| 0 <= k <= s.len() ==> #[trigger] in_i64(seq_sum(s.take(k)))
}

/// The positions, in increasing order, at which `s` holds `v`.
pub open spec fn positions_of(s: Seq<i64>, v: i64) -> Seq<int>
    decreases s.len(),
{
    if s.len() == 0 {
        Seq::empty()
    } else {
        let r = positions_of(s.drop_last(), v);
        if s.last() == v { r.push(s.len() - 1) } else { r }
    }
}

/// The positions `0 .. n`.
pub open spec fn all_positions(n: nat) -> Seq<int> {
    Seq::new(n, |i: int| i)
}

pub open spec fn as_i64s(s: Seq<int>) -> Seq<i64> {
    s.map_values(|i: int| i as i64)
}

pub open spec fn as_usizes(s: Seq<int>) -> Seq<usize> {
    s.map_values(|i: int| i as usize)
}

/// The group with its qualification count worked out.
pub open spec fn tp_qualified(t: TypeProdView) -> TypeProdView {
    TypeProdView {
        qty_needed: t.qty_needed,
        part_numbers: t.part_numbers,
        found_numbers: t.found_numbers,
        total_qty: t.total_qty,
        times_qualified: qualified_times(t.total_qty, t.qty_needed),
    }
}

/// The qualification counts of the groups.
pub open spec fn group_times(tps: Seq<TypeProdView>) -> Seq<i64> {
    tps.map_values(|t: TypeProdView| qualified_times(t.total_qty, t.qty_needed))
}

pub open spec fn part_result(p: PartView, next: Seq<i64>, times: i64) -> PartView {
    PartView {
        part_type: p.part_type,
        type_prod: p.type_prod.map_values(|t: TypeProdView| tp_qualified(t)),
        qty_parts_still_needed: p.qty_parts_still_needed,
        times_parts_qualified: times,
        type_prods_for_next_promo_needed: next,
    }
}

/// A part of kind `Single` must have exactly one group; any other shape is
/// reported as an error.
pub open spec fn part_fails(p: PartView) -> bool {
    p.part_type is Single && p.type_prod.len() != 1
}

/// What working out a part gives.  Every group gets its count.  Then:
/// `And` — the part counts the smallest group count when that is positive
/// (else keeps its count), and the groups at that smallest count are the
/// ones the next qualification needs; `Or` — the part counts the sum of the
/// group counts; `Any(n)` — that sum divided by `n` (as `qualified_times`);
/// `Single` — the count of its one group.  For `Or`, `Any` and `Single` every
/// group is needed next.
pub open spec fn part_completed(p: PartView) -> (PartView, Result<(), ParseIntError>) {
    let times = group_times(p.type_prod);
    let n = p.type_prod.len();
    match p.part_type {
        AndOrType::And => {
            let m = seq_min(times);
            (part_result(p, as_i64s(positions_of(times, m)), if m > 0 { m } else { p.times_parts_qualified }), Ok(()))
        },
        AndOrType::Or => (part_result(p, as_i64s(all_positions(n)), seq_sum(times) as i64), Ok(())),
        AndOrType::Any(c) => (part_result(p, as_i64s(all_positions(n)), qualified_times(seq_sum(times) as i64, c)), Ok(())),
        AndOrType::Single => if n == 1 {
            (part_result(p, seq![0i64], times[0]), Ok(()))
        } else {
            (part_with_type_prods(p, p.type_prod.map_values(|t: TypeProdView| tp_qualified(t))), Err(ParseIntError::InvalidDigit))
        },
    }
}

/// Working out a part a second time, once the first time succeeded, gives
/// the same part and again succeeds.
pub proof fn lemma_part_completed_twice(p: PartView)
    requires
        part_completed(p).1 is Ok,
    ensures
        part_completed(part_completed(p).0) == part_completed(p),
{
    let q = part_completed(p).0;
    let tps = p.type_prod.map_values(|t: TypeProdView| tp_qualified(t));
    assert(q.type_prod == tps);
    assert(group_times(tps) =~= group_times(p.type_prod));
    assert(tps.map_values(|t: TypeProdView| tp_qualified(t)) =~= tps);
    let r = part_completed(q).0;
    assert(r.type_prod == q.type_prod);
    assert(r =~= q);
}

/// Working out the part adds group counts without leaving the `i64` range.
pub open spec fn part_sums_fit(p: PartView) -> bool {
    (p.part_type is Or || p.part_type is Any) ==> sums_fit(group_times(p.type_prod))
}

proof fn lemma_seq_min_step(s: Seq<i64>, i: int)
    requires
        0 <= i < s.len(),
    ensures
        seq_min(s.take(i + 1)) == if i == 0 { s[0] } else if s[i] < seq_min(s.take(i)) { s[i] } else { seq_min(s.take(i)) },
{
    assert(s.take(i + 1).drop_last() =~= s.take(i));
}

proof fn lemma_positions_step(s: Seq<i64>, v: i64, i: int)
    requires
        0 <= i < s.len(),
    ensures
        positions_of(s.take(i + 1), v) == if s[i] == v { positions_of(s.take(i), v).push(i) } else { positions_of(s.take(i), v) },
{
    assert(s.take(i + 1).drop_last() =~= s.take(i));
}

proof fn lemma_sum_step(s: Seq<i64>, i: int)
    requires
        0 <= i < s.len(),
    ensures
        seq_sum(s.take(i + 1)) == seq_sum(s.take(i)) + s[i],
{
    assert(s.take(i + 1).drop_last() =~= s.take(i));
}

/// The smallest value of `v`, or `0` when `v` is empty.
fn min_of(v: &Vec<i64>) -> (m: i64)
    ensures
        m == seq_min(v@),
{
    let mut m: i64 = 0;
    let mut i: usize = 0;
    while i < v.len()
        invariant
            i <= v@.len(),
            m == seq_min(v@.take(i as int)),
        decreases v@.len() - i,
    {
        proof { lemma_seq_min_step(v@, i as int); }
        if i == 0 || v[i] < m {
            m = v[i];
        }
        i += 1;
    }
    assert(v@.take(v@.len() as int) =~= v@);
    m
}

/// The positions of `v` that hold `m`, in increasing order.
fn positions_i64(v: &Vec<i64>, m: i64) -> (r: Vec<i64>)
    ensures
        r@ == as_i64s(positions_of(v@, m)),
{
    let mut r: Vec<i64> = Vec::new();
    let mut i: usize = 0;
    while i < v.len()
        invariant
            i <= v@.len(),
            r@ == as_i64s(positions_of(v@.take(i as int), m)),
        decreases v@.len() - i,
    {
        proof { lemma_positions_step(v@, m, i as int); }
        if v[i] == m {
            r.push(#[verifier::truncate] (i as i64));
            assert(r@ =~= as_i64s(positions_of(v@.take(i + 1), m)));
        }
        i += 1;
    }
    assert(v@.take(v@.len() as int) =~= v@);
    r
}

/// The positions of `v` that hold `m`, in increasing order.
fn positions_usize(v: &Vec<i64>, m: i64) -> (r: Vec<usize>)
    ensures
        r@ == as_usizes(positions_of(v@, m)),
{
    let mut r: Vec<usize> = Vec::new();
    let mut i: usize = 0;
    while i < v.len()
        invariant
            i <= v@.len(),
            r@ == as_usizes(positions_of(v@.take(i as int), m)),
        decreases v@.len() - i,
    {
        proof { lemma_positions_step(v@, m, i as int); }
        if v[i] == m {
            r.push(i);
            assert(r@ =~= as_usizes(positions_of(v@.take(i + 1), m)));
        }
        i += 1;
    }
    assert(v@.take(v@.len() as int) =~= v@);
    r
}

/// The positions `0 .. n`.
fn all_positions_i64(n: usize) -> (r: Vec<i64>)
    ensures
        r@ == as_i64s(all_positions(n as nat)),
{
    let mut r: Vec<i64> = Vec::new();
    let mut i: usize = 0;
    while i < n
        invariant
            i <= n,
            r@ == as_i64s(all_positions(i as nat)),
        decreases n - i,
    {
        r.push(#[verifier::truncate] (i as i64));
        i += 1;
        assert(r@ =~= as_i64s(all_positions(i as nat)));
    }
    r
}

/// The sum of `v`, which stays an `i64` from the left.
fn sum_of(v: &Vec<i64>) -> (s: i64)
    requires
        sums_fit(v@),
    ensures
        s == seq_sum(v@),
{
    let mut s: i64 = 0;
    let mut i: usize = 0;
    while i < v.len()
        invariant
            i <= v@.len(),
            sums_fit(v@),
            s == seq_sum(v@.take(i as int)),
        decreases v@.len() - i,
    {
        proof {
            lemma_sum_step(v@, i as int);
            assert(in_i64(seq_sum(v@.take(i + 1))));
        }
        s = s + v[i];
        i += 1;
    }
    assert(v@.take(v@.len() as int) =~= v@);
    s
}

fn modify_promo_part(promo_part: &mut Part) -> (r: Result<(), ParseIntError>)
    requires
        old(promo_part).wf(),
        part_sums_fit(old(promo_part)@),
    ensures
        final(promo_part).wf(),
        (final(promo_part)@, r) == part_completed(old(promo_part)@),
{
    let ghost old_part = promo_part@;
    let n = promo_part.type_prod.len();
    let mut times: Vec<i64> = Vec::new();
    let mut i: usize = 0;
    while i < n
        invariant
            old_part == old(promo_part)@,
            n == promo_part.type_prod@.len(),
            n == old_part.type_prod.len(),
            n == old(promo_part).type_prod@.len(),
            i <= n,
            promo_part@ == part_with_type_prods(old_part, promo_part@.type_prod),
            old(promo_part).wf(),
            promo_part.wf(),
            times@ == group_times(old_part.type_prod).take(i as int),
            forall|j: int| 0 <= j < n ==> (#[trigger] promo_part.type_prod@[j])@ == (
                if j < i { tp_qualified(old_part.type_prod[j]) } else { old_part.type_prod[j] }),
            forall|j: int| 0 <= j < n ==> (#[trigger] promo_part.type_prod@[j]).found_numbers == old(promo_part).type_prod@[j].found_numbers,
        decreases n - i,
    {
        let t = qualified_times_of(promo_part.type_prod[i].total_qty, promo_part.type_prod[i].qty_needed);
        promo_part.type_prod[i].times_qualified = t;
        times.push(t);
        i += 1;
        assert(times@ =~= group_times(old_part.type_prod).take(i as int));
    }
    assert(times@ =~= group_times(old_part.type_prod));
    assert(promo_part@.type_prod =~= old_part.type_prod.map_values(|t: TypeProdView| tp_qualified(t)));
    match promo_part.part_type {
        AndOrType::And => {
            let m = min_of(&times);
            promo_part.type_prods_for_next_promo_needed = positions_i64(&times, m);
            if m > 0 {
                promo_part.times_parts_qualified = m;
            }
        },
        AndOrType::Or => {
            promo_part.type_prods_for_next_promo_needed = all_positions_i64(n);
            promo_part.times_parts_qualified = sum_of(&times);
        },
        AndOrType::Any(cnt) => {
            promo_part.type_prods_for_next_promo_needed = all_positions_i64(n);
            let total = sum_of(&times);
            promo_part.times_parts_qualified = qualified_times_of(total, cnt);
        },
        AndOrType::Single => {
            if n == 1 {
                let mut next: Vec<i64> = Vec::new();
                next.push(0);
                promo_part.type_prods_for_next_promo_needed = next;
                promo_part.times_parts_qualified = times[0];
                assert(promo_part.type_prods_for_next_promo_needed@ =~= seq![0i64]);
            } else {
                return Err(ParseIntError::InvalidDigit);
            }
        },
    }
    Ok(())
}


pub open spec fn part_done(p: PartView) -> PartView {
    part_completed(p).0
}

pub open spec fn part_failer() -> spec_fn(PartView) -> bool {
    |p: PartView| part_fails(p)
}

/// The first part of the section that is reported as an error, or the
/// number of parts when none is.
pub open spec fn first_failing_part(s: PromoSectionView) -> int {
    first_where(s.part, part_failer(), 0)
}

pub open spec fn section_fails(s: PromoSectionView) -> bool {
    first_failing_part(s) < s.part.len()
}

/// The counts of the parts of a section, once worked out.
pub open spec fn part_times(parts: Seq<PartView>) -> Seq<i64> {
    parts.map_values(|p: PartView| p.times_parts_qualified)
}

/// What working out a section gives.  Its parts are worked out in order; at
/// the first part that fails the work stops (later parts stay as they were)
/// and the error is returned.  When none fails, the section counts the
/// smallest part count (if it has parts), and the positions of the parts at
/// that count are added to the parts still needed.
pub open spec fn section_completed(s: PromoSectionView) -> (PromoSectionView, Result<(), ParseIntError>) {
    let k = first_failing_part(s);
    if k < s.part.len() {
        (crate::insert_into_promo::section_with_parts(
            s,
            Seq::new(s.part.len(), |j: int| if j <= k { part_done(s.part[j]) } else { s.part[j] }),
        ), Err(ParseIntError::InvalidDigit))
    } else {
        let parts = s.part.map_values(|p: PartView| part_done(p));
        let times = part_times(parts);
        let m = seq_min(times);
        (PromoSectionView {
            promo_parts_still_needed: s.promo_parts_still_needed + as_usizes(positions_of(times, m)),
            times_section_qualified: if parts.len() > 0 { m } else { s.times_section_qualified },
            part: parts,
        }, Ok(()))
    }
}

/// The smallest value of a non-empty sequence is at most each of its
/// values and is one of them.
proof fn lemma_seq_min_least(s: Seq<i64>)
    requires
        s.len() > 0,
    ensures
        forall|j: int| 0 <= j < s.len() ==> seq_min(s) <= #[trigger] s[j],
        exists|j: int| 0 <= j < s.len() && #[trigger] s[j] == seq_min(s),
    decreases s.len(),
{
    if s.len() == 1 {
        assert(s[0] == seq_min(s));
    } else {
        let t = s.drop_last();
        lemma_seq_min_least(t);
        assert forall|j: int| 0 <= j < s.len() implies seq_min(s) <= #[trigger] s[j] by {
            if j < s.len() - 1 {
                assert(s[j] == t[j]);
            }
        }
        if s.last() < seq_min(t) {
            assert(s[s.len() - 1] == seq_min(s));
        } else {
            let j = choose|j: int| 0 <= j < t.len() && #[trigger] t[j] == seq_min(t);
            assert(s[j] == seq_min(s));
        }
    }
}

/// A section that is worked out without error and has parts is qualified
/// for as many times as its least qualified part: no more than any part,
/// and as many as one of them.
pub proof fn lemma_section_qualified_least(s: PromoSectionView)
    requires
        section_completed(s).1 is Ok,
        s.part.len() > 0,
    ensures
        ({
            let r = section_completed(s).0;
            &&& forall|j: int| 0 <= j < r.part.len() ==> r.times_section_qualified <= (#[trigger] r.part[j]).times_parts_qualified
            &&& exists|j: int| 0 <= j < r.part.len() && (#[trigger] r.part[j]).times_parts_qualified == r.times_section_qualified
        }),
{
    let parts = s.part.map_values(|p: PartView| part_done(p));
    let times = part_times(parts);
    lemma_seq_min_least(times);
    let r = section_completed(s).0;
    assert(r.part == parts);
    assert forall|j: int| 0 <= j < r.part.len() implies r.times_section_qualified <= (#[trigger] r.part[j]).times_parts_qualified by {
        assert(times[j] == parts[j].times_parts_qualified);
    }
    let j = choose|j: int| 0 <= j < times.len() && #[trigger] times[j] == seq_min(times);
    assert(r.part[j].times_parts_qualified == r.times_section_qualified);
}

/// Every part that is worked out adds its group counts within `i64`.
pub open spec fn section_sums_fit(s: PromoSectionView) -> bool {
    forall|j: int| 0 <= j < s.part.len() && j <= first_failing_part(s) ==> part_sums_fit(#[trigger] s.part[j])
}

fn modify_promo_section(promo_seg: &mut PromoSection) -> (r: Result<(), ParseIntError>)
    requires
        old(promo_seg).wf(),
        section_sums_fit(old(promo_seg)@),
    ensures
        final(promo_seg).wf(),
        (final(promo_seg)@, r) == section_completed(old(promo_seg)@),
{
    let ghost old_seg = promo_seg@;
    proof { lemma_first_where(old_seg.part, part_failer(), 0); }
    let n = promo_seg.part.len();
    let mut i: usize = 0;
    while i < n
        invariant
            old_seg == old(promo_seg)@,
            n == promo_seg.part@.len(),
            n == old_seg.part.len(),
            i <= n,
            section_sums_fit(old_seg),
            0 <= first_failing_part(old_seg) <= n,
            forall|j: int| 0 <= j < first_failing_part(old_seg) ==> !part_fails(#[trigger] old_seg.part[j]),
            first_failing_part(old_seg) < n ==> part_fails(old_seg.part[first_failing_part(old_seg)]),
            forall|j: int| 0 <= j < i ==> !part_fails(#[trigger] old_seg.part[j]),
            promo_seg.wf(),
            promo_seg@ == crate::insert_into_promo::section_with_parts(old_seg, promo_seg@.part),
            forall|j: int| 0 <= j < n ==> (#[trigger] promo_seg.part@[j])@ == (
                if j < i { part_done(old_seg.part[j]) } else { old_seg.part[j] }),
        decreases n - i,
    {
        assert(promo_seg.part@[i as int]@ == old_seg.part[i as int]);
        let res = modify_promo_part(&mut promo_seg.part[i]);
        match res {
            Ok(()) => {},
            Err(e) => {
                proof {
                    let k = first_failing_part(old_seg);
                    assert(part_fails(old_seg.part[i as int]));
                    if k > i {
                        assert(!part_fails(old_seg.part[i as int]));
                    }
                    assert(k == i);
                    assert(promo_seg@.part =~= Seq::new(old_seg.part.len(),
                        |j: int| if j <= k { part_done(old_seg.part[j]) } else { old_seg.part[j] }));
                }
                return Err(e);
            },
        }
        i += 1;
    }
    let ghost parts = old_seg.part.map_values(|p: PartView| part_done(p));
    assert(promo_seg@.part =~= parts);
    let mut times: Vec<i64> = Vec::new();
    let mut j: usize = 0;
    while j < n
        invariant
            n == promo_seg.part@.len(),
            j <= n,
            parts == promo_seg@.part,
            times@ == part_times(parts).take(j as int),
        decreases n - j,
    {
        times.push(promo_seg.part[j].times_parts_qualified);
        j += 1;
        assert(times@ =~= part_times(parts).take(j as int));
    }
    assert(times@ =~= part_times(parts));
    let m = min_of(&times);
    let mut still = positions_usize(&times, m);
    promo_seg.promo_parts_still_needed.append(&mut still);
    if n > 0 {
        promo_seg.times_section_qualified = m;
    }
    Ok(())
}


pub open spec fn section_failer() -> spec_fn(PromoSectionView) -> bool {
    |s: PromoSectionView| section_fails(s)
}

/// The first section in which some part fails, or the number of sections.
pub open spec fn first_failing_section(p: PromotionView) -> int {
    first_where(p.promo_sections, section_failer(), 0)
}

pub open spec fn promotion_fails(p: PromotionView) -> bool {
    first_failing_section(p) < p.promo_sections.len()
}

/// What working out a promotion gives: its sections are worked out in
/// order, up to and including the first section in which a part fails; the
/// sections after it stay as they were, and the error is returned.
pub open spec fn promotion_completed(p: PromotionView) -> (PromotionView, Result<(), ParseIntError>) {
    let k = first_failing_section(p);
    (crate::insert_into_promo::promotion_with_sections(
        p,
        Seq::new(p.promo_sections.len(), |j: int| if j <= k { section_completed(p.promo_sections[j]).0 } else { p.promo_sections[j] }),
    ), if k < p.promo_sections.len() { Err(ParseIntError::InvalidDigit) } else { Ok(()) })
}

/// Every section that is worked out adds its counts within `i64`.
pub open spec fn promotion_sums_fit(p: PromotionView) -> bool {
    forall|j: int| 0 <= j < p.promo_sections.len() && j <= first_failing_section(p) ==> section_sums_fit(#[trigger] p.promo_sections[j])
}

fn modify_promo_helper(promo_root: &mut Promotion) -> (r: Result<(), ParseIntError>)
    requires
        old(promo_root).wf(),
        promotion_sums_fit(old(promo_root)@),
    ensures
        final(promo_root).wf(),
        (final(promo_root)@, r) == promotion_completed(old(promo_root)@),
{
    let ghost old_pr = promo_root@;
    proof { lemma_first_where(old_pr.promo_sections, section_failer(), 0); }
    let n = promo_root.promo_sections.len();
    let mut i: usize = 0;
    while i < n
        invariant
            old_pr == old(promo_root)@,
            n == promo_root.promo_sections@.len(),
            n == old_pr.promo_sections.len(),
            i <= n,
            promotion_sums_fit(old_pr),
            0 <= first_failing_section(old_pr) <= n,
            forall|j: int| 0 <= j < first_failing_section(old_pr) ==> !section_fails(#[trigger] old_pr.promo_sections[j]),
            first_failing_section(old_pr) < n ==> section_fails(old_pr.promo_sections[first_failing_section(old_pr)]),
            forall|j: int| 0 <= j < i ==> !section_fails(#[trigger] old_pr.promo_sections[j]),
            promo_root.wf(),
            promo_root@ == crate::insert_into_promo::promotion_with_sections(old_pr, promo_root@.promo_sections),
            forall|j: int| 0 <= j < n ==> (#[trigger] promo_root.promo_sections@[j])@ == (
                if j < i { section_completed(old_pr.promo_sections[j]).0 } else { old_pr.promo_sections[j] }),
        decreases n - i,
    {
        assert(promo_root.promo_sections@[i as int]@ == old_pr.promo_sections[i as int]);
        let res = modify_promo_section(&mut promo_root.promo_sections[i]);
        match res {
            Ok(()) => {
                assert(!section_fails(old_pr.promo_sections[i as int]));
            },
            Err(e) => {
                proof {
                    let k = first_failing_section(old_pr);
                    assert(section_fails(old_pr.promo_sections[i as int]));
                    if k > i {
                        assert(!section_fails(old_pr.promo_sections[i as int]));
                    }
                    assert(k == i);
                    assert(promo_root@.promo_sections =~= Seq::new(old_pr.promo_sections.len(),
                        |j: int| if j <= k { section_completed(old_pr.promo_sections[j]).0 } else { old_pr.promo_sections[j] }));
                }
                return Err(e);
            },
        }
        i += 1;
    }
    assert(promo_root@.promo_sections =~= Seq::new(old_pr.promo_sections.len(),
        |j: int| if j <= first_failing_section(old_pr) { section_completed(old_pr.promo_sections[j]).0 } else { old_pr.promo_sections[j] }));
    Ok(())
}

/// How many of the promotions fail when worked out.
pub open spec fn failing_count(ps: Seq<PromotionView>) -> nat
    decreases ps.len(),
{
    if ps.len() == 0 {
        0
    } else {
        failing_count(ps.drop_last()) + if promotion_fails(ps.last()) { 1nat } else { 0nat }
    }
}

/// Every promotion of the map can be worked out within `i64`.
pub open spec fn promo_map_sums_fit(m: &PromoMap) -> bool {
    forall|i: int| 0 <= i < m.vals().len() ==> promotion_sums_fit(#[trigger] m.vals()[i])
}

/// Works out every customer's promotion (see `promotion_completed`).  Every
/// promotion is worked out, whether or not others fail; the result lists one
/// error for each promotion that fails.
pub fn complete_promo(promo: &mut PromoMap) -> (r: Result<(), Vec<ParseIntError>>)
    requires
        promo_map_wf(old(promo)),
        promo_map_sums_fit(old(promo)),
    ensures
        promo_map_wf(final(promo)),
        final(promo).keys() == old(promo).keys(),
        final(promo).vals() == old(promo).vals().map_values(|p: PromotionView| promotion_completed(p).0),
        match r {
            Ok(()) => failing_count(old(promo).vals()) == 0,
            Err(errs) => failing_count(old(promo).vals()) > 0 && errs@.len() == failing_count(old(promo).vals())
                && forall|i: int| 0 <= i < errs@.len() ==> #[trigger] errs@[i] == ParseIntError::InvalidDigit,
        },
{
    let ghost old_map = *promo;
    let mut errors: Vec<ParseIntError> = Vec::new();
    let n = promo.len();
    proof { promo.lemma_keys_vals(); }
    let mut i: usize = 0;
    while i < n
        invariant
            old_map == *old(promo),
            promo_map_wf(old(promo)),
            promo_map_sums_fit(old(promo)),
            n == promo.keys().len(),
            n == promo.values().len(),
            n == old_map.values().len(),
            i <= n,
            promo_map_wf(promo),
            promo.keys() == old_map.keys(),
            forall|j: int| 0 <= j < n ==> (#[trigger] promo.values()[j])@ == (
                if j < i { promotion_completed(old_map.vals()[j]).0 } else { old_map.vals()[j] }),
            errors@.len() == failing_count(old_map.vals().take(i as int)),
            forall|j: int| 0 <= j < errors@.len() ==> #[trigger] errors@[j] == ParseIntError::InvalidDigit,
        decreases n - i,
    {
        let ghost before = *promo;
        let entry = promo.value_at_mut(i);
        assert(entry@ == old_map.vals()[i as int]);
        let res = modify_promo_helper(entry);
        proof {
            before.lemma_wf_by_keys(promo);
            promo.lemma_keys_vals();
            assert forall|j: int| 0 <= j < promo.values().len() implies (#[trigger] promo.values()[j]).wf() by {
                if j != i {
                    assert(promo.values()[j] == before.values()[j]);
                }
            }
            assert(old_map.vals().take(i + 1).drop_last() =~= old_map.vals().take(i as int));
        }
        match res {
            Ok(()) => {},
            Err(e) => {
                errors.push(e);
            },
        }
        i += 1;
    }
    proof {
        assert(old_map.vals().take(n as int) =~= old_map.vals());
        assert(promo.vals() =~= old_map.vals().map_values(|p: PromotionView| promotion_completed(p).0));
    }
    if errors.len() > 0 {
        Err(errors)
    } else {
        Ok(())
    }
}


/// Whether adding up the groups' counts stays within `i64` from the left.
fn group_sums_fit(tps: &Vec<crate::promo_json::TypeProd>) -> (b: bool)
    ensures
        b == sums_fit(group_times(tps@.map_values(|t: crate::promo_json::TypeProd| t@))),
{
    let ghost tv = tps@.map_values(|t: crate::promo_json::TypeProd| t@);
    let ghost times = group_times(tv);
    let mut acc: i128 = 0;
    let mut i: usize = 0;
    assert(times.take(0) =~= Seq::<i64>::empty());
    while i < tps.len()
        invariant
            tv == tps@.map_values(|t: crate::promo_json::TypeProd| t@),
            times == group_times(tv),
            i <= tps@.len(),
            acc == seq_sum(times.take(i as int)),
            forall|k: int| 0 <= k <= i ==> #[trigger] in_i64(seq_sum(times.take(k))),
            -0x8000_0000_0000_0000 <= acc <= 0x7fff_ffff_ffff_ffff,
        decreases tps@.len() - i,
    {
        let t = qualified_times_of(tps[i].total_qty, tps[i].qty_needed);
        proof { lemma_sum_step(times, i as int); }
        acc = acc + t as i128;
        if acc < i64::MIN as i128 || acc > i64::MAX as i128 {
            assert(!in_i64(seq_sum(times.take(i + 1))));
            return false;
        }
        i += 1;
    }
    assert(times.len() == tps@.len());
    true
}

/// Whether working out the part stays within `i64` (see `part_sums_fit`).
fn part_sums_fit_exec(part: &Part) -> (b: bool)
    ensures
        b == part_sums_fit(part@),
{
    match part.part_type {
        AndOrType::Or => group_sums_fit(&part.type_prod),
        AndOrType::Any(_) => group_sums_fit(&part.type_prod),
        _ => true,
    }
}

/// Whether working out the section stays within `i64`.
fn section_sums_fit_exec(sec: &PromoSection) -> (b: bool)
    ensures
        b == section_sums_fit(sec@),
        section_fails(sec@) == (exists|j: int| 0 <= j < sec@.part.len() && part_fails(#[trigger] sec@.part[j])),
{
    proof { lemma_first_where(sec@.part, part_failer(), 0); }
    proof { crate::insert_into_promo::lemma_first_where_exists(sec@.part, part_failer()); }
    let mut i: usize = 0;
    while i < sec.part.len()
        invariant
            i <= sec@.part.len(),
            0 <= first_failing_part(sec@) <= sec@.part.len(),
            forall|j: int| 0 <= j < first_failing_part(sec@) ==> !part_fails(#[trigger] sec@.part[j]),
            first_failing_part(sec@) < sec@.part.len() ==> part_fails(sec@.part[first_failing_part(sec@)]),
            i <= first_failing_part(sec@),
            forall|j: int| 0 <= j < i ==> part_sums_fit(#[trigger] sec@.part[j]),
        decreases sec@.part.len() - i,
    {
        if !part_sums_fit_exec(&sec.part[i]) {
            assert(!part_sums_fit(sec@.part[i as int]));
            return false;
        }
        let fails = match sec.part[i].part_type {
            AndOrType::Single => sec.part[i].type_prod.len() != 1,
            _ => false,
        };
        if fails {
            proof {
                assert(part_fails(sec@.part[i as int]));
                if first_failing_part(sec@) > i {
                    assert(!part_fails(sec@.part[i as int]));
                }
            }
            return true;
        }
        assert(!part_fails(sec@.part[i as int]));
        i += 1;
    }
    true
}

/// Whether some part of the section fails.
fn section_fails_exec(sec: &PromoSection) -> (b: bool)
    ensures
        b == section_fails(sec@),
{
    proof { crate::insert_into_promo::lemma_first_where_exists(sec@.part, part_failer()); }
    let mut i: usize = 0;
    while i < sec.part.len()
        invariant
            i <= sec@.part.len(),
            forall|j: int| 0 <= j < i ==> !part_failer()(#[trigger] sec@.part[j]),
            (first_where(sec@.part, part_failer(), 0) < sec@.part.len()) <==> (exists|j: int| 0 <= j < sec@.part.len() && part_failer()(#[trigger] sec@.part[j])),
        decreases sec@.part.len() - i,
    {
        let fails = match sec.part[i].part_type {
            AndOrType::Single => sec.part[i].type_prod.len() != 1,
            _ => false,
        };
        if fails {
            assert(part_failer()(sec@.part[i as int]));
            return true;
        }
        assert(!part_failer()(sec@.part[i as int]));
        i += 1;
    }
    false
}

/// Whether working out the promotion stays within `i64`.
fn promotion_sums_fit_exec(promo: &Promotion) -> (b: bool)
    ensures
        b == promotion_sums_fit(promo@),
{
    proof { lemma_first_where(promo@.promo_sections, section_failer(), 0); }
    let mut i: usize = 0;
    while i < promo.promo_sections.len()
        invariant
            i <= promo@.promo_sections.len(),
            0 <= first_failing_section(promo@) <= promo@.promo_sections.len(),
            forall|j: int| 0 <= j < first_failing_section(promo@) ==> !section_fails(#[trigger] promo@.promo_sections[j]),
            first_failing_section(promo@) < promo@.promo_sections.len() ==> section_fails(promo@.promo_sections[first_failing_section(promo@)]),
            i <= first_failing_section(promo@),
            forall|j: int| 0 <= j < i ==> section_sums_fit(#[trigger] promo@.promo_sections[j]),
        decreases promo@.promo_sections.len() - i,
    {
        if !section_sums_fit_exec(&promo.promo_sections[i]) {
            assert(!section_sums_fit(promo@.promo_sections[i as int]));
            return false;
        }
        if section_fails_exec(&promo.promo_sections[i]) {
            proof {
                if first_failing_section(promo@) > i {
                    assert(!section_fails(promo@.promo_sections[i as int]));
                }
            }
            return true;
        }
        i += 1;
    }
    true
}

/// Whether `complete_promo` can work out every promotion of the map within
/// `i64` (see `promo_map_sums_fit`).
pub fn can_complete_promo(promo: &PromoMap) -> (b: bool)
    ensures
        b == promo_map_sums_fit(promo),
{
    proof { promo.lemma_keys_vals(); }
    let mut i: usize = 0;
    while i < promo.len()
        invariant
            i <= promo.vals().len(),
            promo.keys().len() == promo.values().len(),
            forall|j: int| 0 <= j < i ==> promotion_sums_fit(#[trigger] promo.vals()[j]),
        decreases promo.vals().len() - i,
    {
        let v = promo.value_at(i);
        if !promotion_sums_fit_exec(v) {
            assert(!promotion_sums_fit(promo.vals()[i as int]));
            return false;
        }
        i += 1;
    }
    true
}

/// The positions of `v` in `s` are in increasing order, lie within `s`, and
/// are exactly those at which `s` holds `v`.
proof fn lemma_positions_of(s: Seq<i64>, v: i64)
    ensures
        forall|a: int, b: int| 0 <= a < b < positions_of(s, v).len() ==> positions_of(s, v)[a] < positions_of(s, v)[b],
        forall|a: int| 0 <= a < positions_of(s, v).len() ==> 0 <= #[trigger] positions_of(s, v)[a] < s.len(),
        forall|a: int| 0 <= a < positions_of(s, v).len() ==> s[#[trigger] positions_of(s, v)[a]] == v,
        forall|i: int| 0 <= i < s.len() && s[i] == v ==> #[trigger] positions_of(s, v).contains(i),
    decreases s.len(),
{
    if s.len() > 0 {
        let t = s.drop_last();
        lemma_positions_of(t, v);
        let pt = positions_of(t, v);
        assert forall|i: int| 0 <= i < s.len() && s[i] == v implies #[trigger] positions_of(s, v).contains(i) by {
            if i < s.len() - 1 {
                assert(t[i] == v);
                assert(pt.contains(i));
                let a = choose|a: int| 0 <= a < pt.len() && pt[a] == i;
                assert(positions_of(s, v)[a] == i);
            } else {
                assert(positions_of(s, v)[pt.len() as int] == i);
            }
        }
    }
}

/// A part worked out gives, as the groups the next qualification needs: for
/// `Or` and `Any`, every group, in order; for a `Single` part of one group,
/// that group; for `And`, in increasing order, exactly the groups whose count
/// no other group's count is below.
pub proof fn lemma_part_next_needed(p: PartView)
    requires
        p.type_prod.len() <= i64::MAX,
    ensures
        ({
            let r = part_completed(p).0;
            let n = p.type_prod.len();
            let next = r.type_prods_for_next_promo_needed;
            &&& r.type_prod.len() == n
            &&& (p.part_type is Or || p.part_type is Any) ==> next == Seq::new(n, |i: int| i as i64)
            &&& (p.part_type is Single && n == 1) ==> next == seq![0i64]
            &&& p.part_type is And ==> {
                &&& forall|a: int, b: int| 0 <= a < b < next.len() ==> next[a] < next[b]
                &&& forall|a: int| 0 <= a < next.len() ==> 0 <= #[trigger] next[a] < n
                &&& forall|j: int| 0 <= j < n ==> (#[trigger] next.contains(j as i64) <==>
                    forall|k: int| 0 <= k < n ==> r.type_prod[j].times_qualified <= #[trigger] r.type_prod[k].times_qualified)
            }
        }),
{
    let r = part_completed(p).0;
    let n = p.type_prod.len();
    let times = group_times(p.type_prod);
    assert(r.type_prod.len() == n);
    assert forall|j: int| 0 <= j < n implies #[trigger] r.type_prod[j].times_qualified == times[j] by {}
    if p.part_type is Or || p.part_type is Any {
        assert(as_i64s(all_positions(n)) =~= Seq::new(n, |i: int| i as i64));
    }
    if p.part_type is And {
        let m = seq_min(times);
        let pos = positions_of(times, m);
        let next = r.type_prods_for_next_promo_needed;
        lemma_positions_of(times, m);
        assert(next == as_i64s(pos));
        if n > 0 {
            lemma_seq_min_least(times);
        }
        assert forall|j: int| 0 <= j < n implies (#[trigger] next.contains(j as i64) <==>
            forall|k: int| 0 <= k < n ==> r.type_prod[j].times_qualified <= #[trigger] r.type_prod[k].times_qualified) by {
            if next.contains(j as i64) {
                let a = choose|a: int| 0 <= a < next.len() && next[a] == j as i64;
                assert(pos[a] == j);
                assert forall|k: int| 0 <= k < n implies r.type_prod[j].times_qualified <= #[trigger] r.type_prod[k].times_qualified by {
                    assert(times[k] == r.type_prod[k].times_qualified);
                }
            }
            if forall|k: int| 0 <= k < n ==> r.type_prod[j].times_qualified <= #[trigger] r.type_prod[k].times_qualified {
                let w = choose|w: int| 0 <= w < times.len() && #[trigger] times[w] == seq_min(times);
                assert(r.type_prod[j].times_qualified <= r.type_prod[w].times_qualified);
                assert(times[j] == m);
                assert(pos.contains(j));
                let a = choose|a: int| 0 <= a < pos.len() && pos[a] == j;
                assert(next[a] == j as i64);
            }
        }
    }
}

/// When a section with parts is worked out without error, the parts still
/// needed keep their earlier entries and gain, in increasing order, exactly
/// the positions of the parts whose count no other part's count is below;
/// the section counts that least count.
pub proof fn lemma_section_still_needed(s: PromoSectionView)
    requires
        section_completed(s).1 is Ok,
        0 < s.part.len() <= usize::MAX,
    ensures
        ({
            let r = section_completed(s).0;
            let old_len = s.promo_parts_still_needed.len() as int;
            let added = r.promo_parts_still_needed.skip(old_len);
            let n = s.part.len() as int;
            &&& r.part.len() == n
            &&& r.promo_parts_still_needed.len() >= old_len
            &&& r.promo_parts_still_needed.take(old_len) == s.promo_parts_still_needed
            &&& forall|a: int, b: int| 0 <= a < b < added.len() ==> added[a] < added[b]
            &&& forall|a: int| 0 <= a < added.len() ==> #[trigger] added[a] < n
            &&& forall|j: int| 0 <= j < n ==> (#[trigger] added.contains(j as usize) <==>
                forall|k: int| 0 <= k < n ==> r.part[j].times_parts_qualified <= #[trigger] r.part[k].times_parts_qualified)
            &&& forall|j: int| 0 <= j < n && added.contains(j as usize) ==> r.times_section_qualified == #[trigger] r.part[j].times_parts_qualified
        }),
{
    let parts = s.part.map_values(|p: PartView| part_done(p));
    let times = part_times(parts);
    let m = seq_min(times);
    let pos = positions_of(times, m);
    let r = section_completed(s).0;
    let old_len = s.promo_parts_still_needed.len() as int;
    let added = r.promo_parts_still_needed.skip(old_len);
    let n = s.part.len() as int;
    lemma_positions_of(times, m);
    lemma_seq_min_least(times);
    assert(r.part == parts);
    assert(added =~= as_usizes(pos));
    assert(r.promo_parts_still_needed.take(old_len) =~= s.promo_parts_still_needed);
    assert forall|j: int| 0 <= j < n implies #[trigger] r.part[j].times_parts_qualified == times[j] by {}
    assert forall|j: int| 0 <= j < n implies (#[trigger] added.contains(j as usize) <==>
        forall|k: int| 0 <= k < n ==> r.part[j].times_parts_qualified <= #[trigger] r.part[k].times_parts_qualified) by {
        if added.contains(j as usize) {
            let a = choose|a: int| 0 <= a < added.len() && added[a] == j as usize;
            assert(pos[a] == j);
            assert forall|k: int| 0 <= k < n implies r.part[j].times_parts_qualified <= #[trigger] r.part[k].times_parts_qualified by {
                assert(times[k] == r.part[k].times_parts_qualified);
            }
        }
        if forall|k: int| 0 <= k < n ==> r.part[j].times_parts_qualified <= #[trigger] r.part[k].times_parts_qualified {
            let w = choose|w: int| 0 <= w < times.len() && #[trigger] times[w] == seq_min(times);
            assert(r.part[j].times_parts_qualified <= r.part[w].times_parts_qualified);
            assert(times[j] == m);
            assert(pos.contains(j));
            let a = choose|a: int| 0 <= a < pos.len() && pos[a] == j;
            assert(added[a] == j as usize);
        }
    }
    assert forall|j: int| 0 <= j < n && added.contains(j as usize) implies r.times_section_qualified == #[trigger] r.part[j].times_parts_qualified by {
        let a = choose|a: int| 0 <= a < added.len() && added[a] == j as usize;
        assert(pos[a] == j);
    }
}

/// A part worked out gives each group a count of whole qualifications (its
/// total covers the quantity needed that many times, for a positive quantity
/// needed), keeps every group's part numbers, purchases and total, and counts
/// itself: for `Single`, as its one group; for `And`, as its least group
/// count when every group counts at least once, and otherwise as before.
pub proof fn lemma_part_counts(p: PartView)
    ensures
        ({
            let r = part_completed(p).0;
            let n = p.type_prod.len();
            &&& r.type_prod.len() == n
            &&& r.part_type == p.part_type
            &&& forall|j: int| 0 <= j < n ==> {
                let g = p.type_prod[j];
                let h = #[trigger] r.type_prod[j];
                &&& h.part_numbers == g.part_numbers
                &&& h.found_numbers == g.found_numbers
                &&& h.total_qty == g.total_qty
                &&& h.qty_needed == g.qty_needed
                &&& g.qty_needed > 0 ==> h.times_qualified * g.qty_needed <= g.total_qty < (h.times_qualified + 1) * g.qty_needed
            }
            &&& (p.part_type is Single && n == 1) ==> r.times_parts_qualified == r.type_prod[0].times_qualified
            &&& (p.part_type is And && n > 0 && forall|k: int| 0 <= k < n ==> #[trigger] r.type_prod[k].times_qualified > 0) ==> {
                &&& exists|j: int| 0 <= j < n && r.times_parts_qualified == #[trigger] r.type_prod[j].times_qualified
                &&& forall|k: int| 0 <= k < n ==> r.times_parts_qualified <= #[trigger] r.type_prod[k].times_qualified
            }
            &&& (p.part_type is And && (n == 0 || exists|k: int| 0 <= k < n && #[trigger] r.type_prod[k].times_qualified <= 0))
                ==> r.times_parts_qualified == p.times_parts_qualified
        }),
{
    let r = part_completed(p).0;
    let n = p.type_prod.len();
    let times = group_times(p.type_prod);
    assert forall|j: int| 0 <= j < n implies {
        let g = p.type_prod[j];
        let h = #[trigger] r.type_prod[j];
        &&& h.part_numbers == g.part_numbers
        &&& h.found_numbers == g.found_numbers
        &&& h.total_qty == g.total_qty
        &&& h.qty_needed == g.qty_needed
        &&& g.qty_needed > 0 ==> h.times_qualified * g.qty_needed <= g.total_qty < (h.times_qualified + 1) * g.qty_needed
    } by {
        let g = p.type_prod[j];
        if g.qty_needed > 0 {
            lemma_qualified_times_covers(g.total_qty, g.qty_needed);
        }
    }
    assert forall|j: int| 0 <= j < n implies #[trigger] r.type_prod[j].times_qualified == times[j] by {}
    if p.part_type is And && n > 0 {
        lemma_seq_min_least(times);
        let m = seq_min(times);
        let w = choose|w: int| 0 <= w < times.len() && #[trigger] times[w] == m;
        assert(r.type_prod[w].times_qualified == m);
        if forall|k: int| 0 <= k < n ==> #[trigger] r.type_prod[k].times_qualified > 0 {
            assert(m > 0);
        }
        if exists|k: int| 0 <= k < n && #[trigger] r.type_prod[k].times_qualified <= 0 {
            let k = choose|k: int| 0 <= k < n && #[trigger] r.type_prod[k].times_qualified <= 0;
            assert(times[k] <= 0);
            assert(m <= 0);
        }
    }
}

} // verus!
