//! What is shown: the parks in order of name, the units of each park in
//! the natural order of their short names, and the axis of dates that
//! runs without a gap from the earliest date of any unit to the latest.

use crate::date::{civil_day, in_range, Date};
use crate::model::{views, ParkReport, ParsedPark, ParsedUnit, Slice, UnitReport};
use crate::natural::{comes_no_later, naturally_no_later};
use crate::order::{
    lemma_stable_sort_permutes, lemma_stable_sort_ranks, ranked, ranking, sort, stable_sort,
    total_preorder, Ranked,
};
use crate::text::{
    decimal, has_short_numbers, lemma_lexical_total, lemma_lexical_transitive, lexical_le,
    lexically_ordered, push_decimal, short_numbers,
};
use vstd::prelude::*;
use vstd::string::*;

verus! {

/// The day numbers of the dates, in order.
pub open spec fn day_numbers(dates: Seq<Date>) -> Seq<int> {
    Seq::new(dates.len(), |i: int| dates[i]@)
}

/// The smallest of the numbers; 0 where there is none.
pub open spec fn earliest(days: Seq<int>) -> int
    decreases days.len(),
{
    if days.len() == 0 {
        0
    } else if days.len() == 1 || days.last() < earliest(days.drop_last()) {
        days.last()
    } else {
        earliest(days.drop_last())
    }
}

/// The greatest of the numbers; 0 where there is none.
pub open spec fn latest(days: Seq<int>) -> int
    decreases days.len(),
{
    if days.len() == 0 {
        0
    } else if days.len() == 1 || days.last() > latest(days.drop_last()) {
        days.last()
    } else {
        latest(days.drop_last())
    }
}

/// Every day from `first` to `last`, both included, in ascending order.
pub open spec fn date_axis(first: int, last: int) -> Seq<int> {
    Seq::new((last - first + 1) as nat, |i: int| first + i)
}

/// The axis over which `days` are shown: every day from the earliest of
/// them to the latest.
pub open spec fn axis_over(days: Seq<int>) -> Seq<int> {
    date_axis(earliest(days), latest(days))
}

/// The earliest and the latest of some days are among them, and bound
/// them all.
pub proof fn lemma_earliest_latest(days: Seq<int>)
    requires
        days.len() > 0,
    ensures
        days.contains(earliest(days)),
        days.contains(latest(days)),
        forall|i: int| 0 <= i < days.len() ==> earliest(days) <= #[trigger] days[i] <= latest(days),
    decreases days.len(),
{
    if days.len() == 1 {
        assert(days[0] == days.last());
    } else {
        let front = days.drop_last();
        lemma_earliest_latest(front);
        let lo = choose|i: int| 0 <= i < front.len() && front[i] == earliest(front);
        let hi = choose|i: int| 0 <= i < front.len() && front[i] == latest(front);
        assert(days[lo] == front[lo] && days[hi] == front[hi]);
        assert(days[days.len() - 1] == days.last());
        assert forall|i: int| 0 <= i < days.len() implies earliest(days) <= #[trigger] days[i]
            <= latest(days) by {
            if i < front.len() {
                assert(days[i] == front[i]);
            }
        }
    }
}

/// The axis over a set of days that is not empty ascends strictly, is
/// as long as the span from the earliest to the latest day, both
/// included, and holds exactly the days of that span, so each of them
/// once and each of the given days among them.
pub proof fn lemma_axis_fills_span(days: Seq<int>)
    requires
        days.len() > 0,
    ensures
        axis_over(days).len() == latest(days) - earliest(days) + 1,
        forall|i: int, j: int|
            0 <= i < j < axis_over(days).len() ==> axis_over(days)[i] < axis_over(days)[j],
        forall|d: int| axis_over(days).contains(d) <==> earliest(days) <= d <= latest(days),
        axis_over(days).no_duplicates(),
        forall|i: int| 0 <= i < days.len() ==> axis_over(days).contains(#[trigger] days[i]),
{
    lemma_earliest_latest(days);
    let axis = axis_over(days);
    let lo = earliest(days);
    let hi = latest(days);
    assert forall|d: int| axis.contains(d) <==> lo <= d <= hi by {
        if lo <= d <= hi {
            assert(axis[d - lo] == d);
        }
    }
}

/// The axis over a single day is that day alone.
pub proof fn lemma_axis_of_one_day(day: int)
    ensures
        axis_over(seq![day]) == seq![day],
{
    assert(axis_over(seq![day]) =~= seq![day]);
}

/// The axis over the given dates: every date from the earliest of them
/// to the latest, in ascending order.  `None` where no date is given.
pub fn fill_in_dates(dates_to_show: &Vec<Date>) -> (r: Option<Vec<Date>>)
    ensures
        r is None <==> dates_to_show@.len() == 0,
        r matches Some(axis) ==> day_numbers(axis@) == axis_over(day_numbers(dates_to_show@)),
{
    if dates_to_show.len() == 0 {
        return None;
    }
    let ghost days = day_numbers(dates_to_show@);
    let mut smallest = dates_to_show[0];
    let mut largest = dates_to_show[0];
    let mut i: usize = 1;
    assert(days.take(1) =~= seq![days[0]]);
    while i < dates_to_show.len()
        invariant
            1 <= i <= dates_to_show.len(),
            days == day_numbers(dates_to_show@),
            smallest@ == earliest(days.take(i as int)),
            largest@ == latest(days.take(i as int)),
        decreases dates_to_show.len() - i,
    {
        let date = dates_to_show[i];
        proof {
            assert(days.take(i + 1).drop_last() =~= days.take(i as int));
            assert(days.take(i + 1).last() == date@);
        }
        if date.is_before(&smallest) {
            smallest = date;
        }
        if largest.is_before(&date) {
            largest = date;
        }
        i = i + 1;
    }
    proof {
        assert(days.take(dates_to_show.len() as int) =~= days);
        lemma_earliest_latest(days);
    }
    let first = smallest.days();
    let last = largest.days();
    let mut out: Vec<Date> = Vec::new();
    let mut day = first;
    while day <= last
        invariant
            in_range(first as int),
            in_range(last as int),
            first <= day <= last + 1,
            out.len() == day - first,
            forall|k: int| 0 <= k < out.len() ==> (#[trigger] out[k])@ == first + k,
        decreases last + 1 - day,
    {
        match Date::from_days(day) {
            Some(date) => {
                out.push(date);
            },
            None => {
                // Every day between two dates is in range.
                assert(false);
            },
        }
        day = day + 1;
    }
    assert(day_numbers(out@) =~= axis_over(days));
    Some(out)
}

/// The day of the month of `date`, in decimal.
pub fn shortdate(date: &Date) -> (s: String)
    ensures
        s@ == decimal(civil_day(date@) as nat),
{
    let mut s = String::new();
    push_decimal(&mut s, date.day() as u64);
    assert(s@ =~= decimal(civil_day(date@) as nat));
    s
}

/// The day numbers of the slices, in order.
pub open spec fn slice_days(slices: Seq<Slice>) -> Seq<int> {
    Seq::new(slices.len(), |i: int| slices[i].date@)
}

/// The day numbers of the slices of all the units, unit after unit.
pub open spec fn unit_days(units: Seq<UnitReport>) -> Seq<int>
    decreases units.len(),
{
    if units.len() == 0 {
        Seq::empty()
    } else {
        unit_days(units.drop_last()) + slice_days(units.last().slices)
    }
}

/// The day numbers of the slices of all the units of all the parks,
/// park after park.
pub open spec fn park_days(parks: Seq<ParkReport>) -> Seq<int>
    decreases parks.len(),
{
    if parks.len() == 0 {
        Seq::empty()
    } else {
        park_days(parks.drop_last()) + unit_days(parks.last().units)
    }
}

/// The dates of the slices of all the units of all the parks.
pub fn dates_of(parks: &Vec<ParsedPark>) -> (dates: Vec<Date>)
    ensures
        day_numbers(dates@) == park_days(views(parks@)),
{
    let ghost all = views(parks@);
    let mut dates: Vec<Date> = Vec::new();
    let mut p: usize = 0;
    assert(all.take(0) =~= Seq::<ParkReport>::empty());
    assert(day_numbers(dates@) =~= Seq::<int>::empty());
    while p < parks.len()
        invariant
            p <= parks.len(),
            all == views(parks@),
            day_numbers(dates@) == park_days(all.take(p as int)),
        decreases parks.len() - p,
    {
        let park = &parks[p];
        let ghost units = views(park.units@);
        let ghost before = day_numbers(dates@);
        let mut u: usize = 0;
        assert(units.take(0) =~= Seq::<UnitReport>::empty());
        assert(before + unit_days(units.take(0)) =~= before);
        while u < park.units.len()
            invariant
                u <= park.units.len(),
                units == views(park.units@),
                day_numbers(dates@) == before + unit_days(units.take(u as int)),
            decreases park.units.len() - u,
        {
            let unit = &park.units[u];
            let ghost had = day_numbers(dates@);
            let mut s: usize = 0;
            assert(had + slice_days(unit.slices@.take(0)) =~= had);
            while s < unit.slices.len()
                invariant
                    s <= unit.slices.len(),
                    day_numbers(dates@) == had + slice_days(unit.slices@.take(s as int)),
                decreases unit.slices.len() - s,
            {
                let ghost so_far = day_numbers(dates@);
                dates.push(unit.slices[s].date);
                proof {
                    let day = unit.slices@[s as int].date@;
                    assert(day_numbers(dates@) =~= so_far.push(day));
                    assert(slice_days(unit.slices@.take(s + 1)) =~= slice_days(
                        unit.slices@.take(s as int),
                    ).push(day));
                }
                assert(day_numbers(dates@) =~= had + slice_days(unit.slices@.take(s + 1)));
                s = s + 1;
            }
            proof {
                assert(unit.slices@.take(unit.slices.len() as int) =~= unit.slices@);
                assert(units.take(u + 1).drop_last() =~= units.take(u as int));
                assert(units.take(u + 1).last() == unit@);
                assert(day_numbers(dates@) =~= before + unit_days(units.take(u + 1)));
            }
            u = u + 1;
        }
        proof {
            assert(units.take(park.units.len() as int) =~= units);
            assert(all.take(p + 1).drop_last() =~= all.take(p as int));
            assert(all.take(p + 1).last() == park@);
        }
        p = p + 1;
    }
    assert(all.take(parks.len() as int) =~= all);
    dates
}

/// Parks rank by their names, in lexical order.
impl Ranked for ParsedPark {
    open spec fn rankable(v: ParkReport) -> bool {
        true
    }

    open spec fn no_later(a: ParkReport, b: ParkReport) -> bool {
        lexical_le(a.name, b.name)
    }

    fn ranks_no_later(&self, other: &Self) -> (r: bool) {
        lexically_ordered(self.name.as_str(), other.name.as_str())
    }
}

/// Units rank by their short names, in natural order.  A short name
/// that holds a number of ten digits or more cannot be ranked.
impl Ranked for ParsedUnit {
    open spec fn rankable(v: UnitReport) -> bool {
        short_numbers(v.short_name)
    }

    open spec fn no_later(a: UnitReport, b: UnitReport) -> bool {
        naturally_no_later(a.short_name, b.short_name)
    }

    fn ranks_no_later(&self, other: &Self) -> (r: bool) {
        comes_no_later(self.short_name.as_str(), other.short_name.as_str())
    }
}

/// Whether every one of the units can be ranked.
pub open spec fn all_rankable(units: Seq<UnitReport>) -> bool {
    forall|i: int| 0 <= i < units.len() ==> short_numbers(#[trigger] units[i].short_name)
}

/// The units as they are shown: in the natural order of their short
/// names, units that rank alike in the order in which they were found.
/// Where one of them cannot be ranked they stay as they were found.
pub open spec fn shown_units(units: Seq<UnitReport>) -> Seq<UnitReport> {
    if all_rankable(units) {
        stable_sort(units, ranking::<ParsedUnit>())
    } else {
        units
    }
}

/// The park as it is shown: with its units as they are shown.
pub open spec fn shown_park(park: ParkReport) -> ParkReport {
    ParkReport { units: shown_units(park.units), ..park }
}

/// The parks as they are shown: in the lexical order of their names,
/// parks of one name in the order in which they were reported, each as
/// it is shown.
pub open spec fn shown_parks(parks: Seq<ParkReport>) -> Seq<ParkReport> {
    let sorted = stable_sort(parks, ranking::<ParsedPark>());
    Seq::new(sorted.len(), |i: int| shown_park(sorted[i]))
}

/// The parks that are shown are the parks that were reported, as many
/// and with the same names, and the name of each comes no later in
/// lexical order than the names of those behind it.
pub proof fn lemma_shown_parks_by_name(parks: Seq<ParkReport>)
    ensures
        shown_parks(parks).len() == parks.len(),
        forall|i: int, j: int|
            0 <= i < j < parks.len() ==> lexical_le(
                (#[trigger] shown_parks(parks)[i]).name,
                (#[trigger] shown_parks(parks)[j]).name,
            ),
        stable_sort(parks, ranking::<ParsedPark>()).to_multiset() == parks.to_multiset(),
{
    let le = ranking::<ParsedPark>();
    assert(total_preorder(le)) by {
        assert forall|a: ParkReport, b: ParkReport| #[trigger] le(a, b) || #[trigger] le(b, a) by {
            lemma_lexical_total(a.name, b.name);
        }
        assert forall|a: ParkReport, b: ParkReport, c: ParkReport| #[trigger]
            le(a, b) && #[trigger] le(b, c) implies le(a, c) by {
            lemma_lexical_transitive(a.name, b.name, c.name);
        }
    }
    lemma_stable_sort_permutes(parks, le);
    lemma_stable_sort_ranks(parks, le);
    let sorted = stable_sort(parks, le);
    assert forall|i: int, j: int| 0 <= i < j < parks.len() implies lexical_le(
        (#[trigger] shown_parks(parks)[i]).name,
        (#[trigger] shown_parks(parks)[j]).name,
    ) by {
        assert(le(sorted[i], sorted[j]));
    }
}

/// The units that are shown are the units that were found, each as
/// often as it was found.
pub proof fn lemma_shown_units_permute(units: Seq<UnitReport>)
    ensures
        shown_units(units).len() == units.len(),
        shown_units(units).to_multiset() == units.to_multiset(),
{
    lemma_stable_sort_permutes(units, ranking::<ParsedUnit>());
}

/// Why nothing can be shown.
#[derive(Clone, Copy, Debug, PartialEq, Eq, Structural)]
pub enum Unshowable {
    /// No unit of any park has a date, so there is no axis.
    NoDates,
}

impl Unshowable {
    /// What to tell the user.
    pub fn message(&self) -> (s: String)
        ensures
            s@ == "No dates"@,
    {
        String::from_str("No dates")
    }
}

/// What the presenter is given: the parks and the axis of dates.
#[derive(Clone, Debug, PartialEq, Eq)]
pub struct Calendar {
    pub parks: Vec<ParsedPark>,
    pub dates_to_show: Vec<Date>,
}

fn can_rank_all(units: &Vec<ParsedUnit>) -> (r: bool)
    ensures
        r == all_rankable(views(units@)),
        r ==> forall|i: int| 0 <= i < units.len() ==> ParsedUnit::rankable(#[trigger] units[i]@),
{
    let mut i: usize = 0;
    while i < units.len()
        invariant
            i <= units.len(),
            forall|k: int| 0 <= k < i ==> short_numbers(#[trigger] units[k]@.short_name),
        decreases units.len() - i,
    {
        if !has_short_numbers(units[i].short_name.as_str()) {
            assert(views(units@)[i as int] == units[i as int]@);
            assert(!short_numbers(views(units@)[i as int].short_name));
            return false;
        }
        i = i + 1;
    }
    proof {
        assert forall|k: int| 0 <= k < views(units@).len() implies short_numbers(
            #[trigger] views(units@)[k].short_name,
        ) by {
            assert(views(units@)[k] == units[k]@);
        }
    }
    true
}

/// The units as they are shown.
pub fn arrange_units(units: Vec<ParsedUnit>) -> (shown: Vec<ParsedUnit>)
    ensures
        views(shown@) == shown_units(views(units@)),
{
    if can_rank_all(&units) {
        sort(units)
    } else {
        units
    }
}

/// The parks as they are shown, and the axis over the dates of their
/// units; `NoDates` where no unit of any park has a date.
pub fn arrange(parks: Vec<ParsedPark>) -> (r: Result<Calendar, Unshowable>)
    ensures
        r is Err <==> park_days(views(parks@)).len() == 0,
        r matches Err(why) ==> why == Unshowable::NoDates,
        r matches Ok(calendar) ==> {
            &&& views(calendar.parks@) == shown_parks(views(parks@))
            &&& day_numbers(calendar.dates_to_show@) == axis_over(park_days(views(parks@)))
        },
{
    let dates = dates_of(&parks);
    let dates_to_show = match fill_in_dates(&dates) {
        Some(axis) => axis,
        None => {
            return Err(Unshowable::NoDates);
        },
    };
    let ghost given = views(parks@);
    let sorted = sort(parks);
    let ghost ordered = views(sorted@);
    let mut rest = sorted;
    let mut shown: Vec<ParsedPark> = Vec::new();
    while rest.len() > 0
        invariant
            shown.len() + rest.len() == ordered.len(),
            views(rest@) == ordered.skip(shown.len() as int),
            views(shown@) == Seq::new(shown.len() as nat, |i: int| shown_park(ordered[i])),
        decreases rest.len(),
    {
        let ghost done = shown.len() as int;
        let ghost remaining = views(rest@);
        let park = rest.remove(0);
        proof {
            assert(park@ == remaining[0]);
            assert forall|k: int| 0 <= k < rest.len() implies views(rest@)[k] == ordered[done + 1
                + k] by {
                assert(views(rest@)[k] == remaining[k + 1]);
            }
        }
        assert(park@ == ordered[done]);
        let ParsedPark { name, latitude, longitude, units } = park;
        let units = arrange_units(units);
        let ghost was = views(shown@);
        let park = ParsedPark { name, latitude, longitude, units };
        assert(park@ == shown_park(ordered[done]));
        shown.push(park);
        proof {
            assert(views(shown@) =~= was.push(shown_park(ordered[done])));
            assert(views(shown@) =~= Seq::new(
                shown.len() as nat,
                |i: int| shown_park(ordered[i]),
            ));
            assert(views(rest@) =~= ordered.skip(shown.len() as int));
        }
    }
    assert(views(shown@) =~= shown_parks(given));
    Ok(Calendar { parks: shown, dates_to_show })
}

} // verus!
