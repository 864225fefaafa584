//! From the units of a grid to the units of a report: the units whose
//! name mentions the keyword, each with its slices in order of date.

use crate::model::{
    ascending_dates, distinct_dates, views, Facility, ParsedUnit, Slice, Unit, UnitData,
    UnitReport,
};
use crate::order::{
    insertion_point, lemma_insertion_point, lemma_stable_sort_permutes, ranking, sort, stable_sort,
    Ranked,
};
use crate::text::{mentions, mentions_keyword};
use vstd::prelude::*;

verus! {

impl View for Slice {
    type V = Slice;

    open spec fn view(&self) -> Slice {
        *self
    }
}

/// Slices rank by their dates.
impl Ranked for Slice {
    open spec fn rankable(v: Slice) -> bool {
        true
    }

    open spec fn no_later(a: Slice, b: Slice) -> bool {
        a.date@ <= b.date@
    }

    fn ranks_no_later(&self, other: &Self) -> (r: bool) {
        !other.date.is_before(&self.date)
    }
}

/// The slices in order of date; slices of one date keep their order.
pub open spec fn by_date(slices: Seq<Slice>) -> Seq<Slice> {
    stable_sort(slices, ranking::<Slice>())
}

/// Slices of distinct dates come out in strictly ascending order of
/// date, and they are the slices that went in: none is lost, none added.
pub proof fn lemma_by_date(slices: Seq<Slice>)
    requires
        distinct_dates(slices),
    ensures
        ascending_dates(by_date(slices)),
        by_date(slices).len() == slices.len(),
        forall|s: Slice| by_date(slices).contains(s) <==> slices.contains(s),
    decreases slices.len(),
{
    let le = ranking::<Slice>();
    lemma_stable_sort_permutes(slices, le);
    if slices.len() > 0 {
        let front = slices.drop_last();
        let x = slices.last();
        let placed = by_date(front);
        let p = insertion_point(placed, x, le);
        let out = placed.insert(p, x);
        assert(distinct_dates(front)) by {
            assert forall|i: int, j: int| 0 <= i < j < front.len() implies (
            #[trigger] front[i]).date@ != (#[trigger] front[j]).date@ by {
                assert(front[i] == slices[i] && front[j] == slices[j]);
            }
        }
        lemma_by_date(front);
        lemma_insertion_point(placed, x, le);
        assert forall|k: int| 0 <= k < placed.len() implies (#[trigger] placed[k]).date@
            != x.date@ by {
            assert(placed.contains(placed[k]));
            assert(front.contains(placed[k]));
            let i = choose|i: int| 0 <= i < front.len() && front[i] == placed[k];
            assert(slices[i] == placed[k]);
            assert(slices[slices.len() - 1] == x);
        }
        assert forall|i: int, j: int| 0 <= i < j < out.len() implies (#[trigger] out[i]).date@ < (
        #[trigger] out[j]).date@ by {
            if j < p {
                assert(out[i] == placed[i] && out[j] == placed[j]);
            } else if j == p {
                assert(out[i] == placed[i]);
                assert(le(placed[p - 1], x));
                if i < p - 1 {
                    assert(placed[i].date@ < placed[p - 1].date@);
                }
            } else if i == p {
                assert(out[j] == placed[j - 1]);
                assert(!le(placed[j - 1], x));
            } else if i < p {
                assert(out[i] == placed[i] && out[j] == placed[j - 1]);
            } else {
                assert(out[i] == placed[i - 1] && out[j] == placed[j - 1]);
            }
        }
        assert forall|s: Slice| out.contains(s) <==> slices.contains(s) by {
            if out.contains(s) {
                let k = choose|k: int| 0 <= k < out.len() && out[k] == s;
                if k == p {
                    assert(slices[slices.len() - 1] == s);
                } else {
                    let m = if k < p {
                        k
                    } else {
                        k - 1
                    };
                    assert(placed[m] == s);
                    assert(placed.contains(s));
                    assert(front.contains(s));
                    let i = choose|i: int| 0 <= i < front.len() && front[i] == s;
                    assert(slices[i] == s);
                }
            }
            if slices.contains(s) {
                let i = choose|i: int| 0 <= i < slices.len() && slices[i] == s;
                if i == slices.len() - 1 {
                    assert(out[p] == s);
                } else {
                    assert(front[i] == s);
                    assert(front.contains(s));
                    assert(placed.contains(s));
                    let m = choose|m: int| 0 <= m < placed.len() && placed[m] == s;
                    if m < p {
                        assert(out[m] == s);
                    } else {
                        assert(out[m + 1] == s);
                    }
                }
            }
        }
    }
}

/// The report of a unit: its names, and its slices in order of date.
pub open spec fn unit_report(unit: UnitData) -> UnitReport {
    UnitReport { name: unit.name, short_name: unit.short_name, slices: by_date(unit.slices) }
}

/// The reports of those of `units` whose name mentions `keyword`, in the
/// order of the units.
pub open spec fn reported_units(units: Seq<UnitData>, keyword: Seq<char>) -> Seq<UnitReport>
    decreases units.len(),
{
    if units.len() == 0 {
        Seq::empty()
    } else if mentions(units.last().name, keyword) {
        reported_units(units.drop_last(), keyword).push(unit_report(units.last()))
    } else {
        reported_units(units.drop_last(), keyword)
    }
}

/// Whether a unit report holds its slices in strictly ascending order of date.
pub open spec fn in_date_order(report: UnitReport) -> bool {
    ascending_dates(report.slices)
}

/// Every reported unit of a grid whose units each have one slice per
/// date holds its slices in strictly ascending order of date.
pub proof fn lemma_reported_units_in_date_order(units: Seq<UnitData>, keyword: Seq<char>)
    requires
        forall|i: int| 0 <= i < units.len() ==> distinct_dates(#[trigger] units[i].slices),
    ensures
        forall|i: int|
            0 <= i < reported_units(units, keyword).len() ==> in_date_order(
                #[trigger] reported_units(units, keyword)[i],
            ),
        reported_units(units, keyword).len() <= units.len(),
    decreases units.len(),
{
    if units.len() > 0 {
        let front = units.drop_last();
        assert forall|i: int| 0 <= i < front.len() implies distinct_dates(
            #[trigger] front[i].slices,
        ) by {
            assert(front[i] == units[i]);
        }
        lemma_reported_units_in_date_order(front, keyword);
        lemma_by_date(units.last().slices);
    }
}

impl ParsedUnit {
    /// The report of `unit`.
    pub fn from_unit(unit: &Unit) -> (r: ParsedUnit)
        ensures
            r@ == unit_report(unit@),
            in_date_order(r@),
    {
        let given = unit.slices();
        let mut slices: Vec<Slice> = Vec::new();
        let mut i: usize = 0;
        while i < given.len()
            invariant
                i <= given.len(),
                slices@ == given@.subrange(0, i as int),
            decreases given.len() - i,
        {
            slices.push(given[i]);
            i = i + 1;
        }
        assert(slices@ == given@);
        let sorted = sort(slices);
        proof {
            assert(views(slices@) =~= slices@);
            assert(views(sorted@) =~= sorted@);
            lemma_by_date(given@);
        }
        ParsedUnit { name: unit.name().clone(), short_name: unit.short_name().clone(), slices: sorted }
    }
}

impl Facility {
    /// Adds to `found` the reports of those units of the facility whose
    /// name mentions `keyword`.  Each report that is added holds its
    /// slices in strictly ascending order of date.
    pub fn report_units(&self, keyword: &str, found: &mut Vec<ParsedUnit>)
        ensures
            views(final(found)@) == views(old(found)@) + reported_units(
                views(self.units@),
                keyword@,
            ),
            forall|k: int|
                old(found)@.len() <= k < final(found)@.len() ==> in_date_order(
                    (#[trigger] final(found)@[k])@,
                ),
    {
        let ghost before = views(found@);
        let ghost all = views(self.units@);
        let mut i: usize = 0;
        assert(all.take(0) =~= Seq::<UnitData>::empty());
        while i < self.units.len()
            invariant
                i <= self.units.len(),
                all == views(self.units@),
                before.len() <= found@.len(),
                views(found@) == before + reported_units(all.take(i as int), keyword@),
                forall|k: int|
                    before.len() <= k < found@.len() ==> in_date_order((#[trigger] found@[k])@),
            decreases self.units.len() - i,
        {
            let unit = &self.units[i];
            proof {
                assert(all.take(i + 1).drop_last() =~= all.take(i as int));
                assert(all.take(i + 1).last() == unit@);
            }
            if mentions_keyword(unit.name().as_str(), keyword) {
                let ghost was = views(found@);
                let report = ParsedUnit::from_unit(unit);
                found.push(report);
                assert(views(found@) =~= was.push(report@));
                assert(views(found@) =~= before + reported_units(all.take(i + 1), keyword@));
            }
            i = i + 1;
        }
        assert(all.take(self.units.len() as int) =~= all);
    }
}

} // verus!
