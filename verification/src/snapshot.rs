//! What a run gathers, said without the run: the snapshot as a function
//! of the parks and of what the service answers for each of them.
//!
//! The laws below hold the run of [`crate::pipeline`] to that function,
//! and state what follows for a cached snapshot and for a park whose
//! place brings no result.

use crate::model::{
    views, GridFacility, ParkReport, ParsedPark, Place, PlaceFacility, StatePark, UnitReport,
};
use crate::model::distinct_dates;
use crate::pipeline::{
    park_report, parks_among, sound_snapshot, well_formed, Cached, Event, Run, Stage, Step,
};
use crate::report::{in_date_order, lemma_reported_units_in_date_order, reported_units};
use vstd::prelude::*;

verus! {

/// What the service answers for one park: its place, or no result, and
/// for each facility of the place, in order, its grid, or no result.
pub struct Answers {
    pub place: Option<Place>,
    pub grids: Seq<Option<GridFacility>>,
}

impl Answers {
    /// The facilities of the place; none where the place brought no result.
    pub open spec fn facilities(self) -> Seq<PlaceFacility> {
        match self.place {
            Some(place) => place.selected_place.facilities@,
            None => Seq::empty(),
        }
    }

    /// Whether there is one answer for each facility of the place.
    pub open spec fn complete(self) -> bool {
        self.grids.len() == self.facilities().len()
    }

    /// The units that the answers bring to the park: those of the grids
    /// of its place, and none where the place brought no result.
    pub open spec fn units(self, keyword: Seq<char>) -> Seq<UnitReport> {
        match self.place {
            Some(_) => gathered_units(self.grids, keyword),
            None => Seq::empty(),
        }
    }

    /// The events in which the answers arrive: the place, then the grids.
    pub open spec fn events(self) -> Seq<Event> {
        seq![Event::Place(self.place)] + grid_events(self.grids)
    }
}

/// The events in which the grids arrive.
pub open spec fn grid_events(grids: Seq<Option<GridFacility>>) -> Seq<Event> {
    Seq::new(grids.len(), |i: int| Event::Grid(grids[i]))
}

/// The events in which the answers for park after park arrive.
pub open spec fn events_of(answers: Seq<Answers>) -> Seq<Event>
    decreases answers.len(),
{
    if answers.len() == 0 {
        Seq::empty()
    } else {
        events_of(answers.drop_last()) + answers.last().events()
    }
}

/// The units that a grid brings; none where it brought no result.
pub open spec fn grid_units(grid: Option<GridFacility>, keyword: Seq<char>) -> Seq<UnitReport> {
    match grid {
        Some(grid) => reported_units(views(grid.facility.units@), keyword),
        None => Seq::empty(),
    }
}

/// The units that the grids bring, grid after grid.
pub open spec fn gathered_units(
    grids: Seq<Option<GridFacility>>,
    keyword: Seq<char>,
) -> Seq<UnitReport>
    decreases grids.len(),
{
    if grids.len() == 0 {
        Seq::empty()
    } else {
        gathered_units(grids.drop_last(), keyword) + grid_units(grids.last(), keyword)
    }
}

/// The snapshot of the parks under the given answers: for each park to
/// which the grids of its place bring a unit, in the order of the parks,
/// the report of the park with those units.
pub open spec fn snapshot_of(
    parks: Seq<StatePark>,
    answers: Seq<Answers>,
    keyword: Seq<char>,
) -> Seq<ParkReport>
    decreases parks.len(),
{
    if parks.len() == 0 {
        Seq::empty()
    } else {
        let before = snapshot_of(parks.drop_last(), answers.drop_last(), keyword);
        let units = answers.last().units(keyword);
        if units.len() > 0 {
            before.push(park_report(parks.last(), units))
        } else {
            before
        }
    }
}

/// Whether every unit that the answers bring has one slice per date.
pub open spec fn one_slice_per_date(answers: Answers) -> bool {
    forall|g: int| 0 <= g < answers.grids.len() ==> well_formed(Event::Grid(#[trigger] answers.grids[g]))
}

/// No park without a unit is in a snapshot.
pub proof fn lemma_no_park_without_units(
    parks: Seq<StatePark>,
    answers: Seq<Answers>,
    keyword: Seq<char>,
)
    ensures
        forall|i: int|
            0 <= i < snapshot_of(parks, answers, keyword).len() ==> (#[trigger] snapshot_of(
                parks,
                answers,
                keyword,
            )[i]).units.len() > 0,
        snapshot_of(parks, answers, keyword).len() <= parks.len(),
    decreases parks.len(),
{
    if parks.len() > 0 {
        lemma_no_park_without_units(parks.drop_last(), answers.drop_last(), keyword);
    }
}

proof fn lemma_gathered_units_in_date_order(
    grids: Seq<Option<GridFacility>>,
    keyword: Seq<char>,
)
    requires
        forall|g: int| 0 <= g < grids.len() ==> well_formed(Event::Grid(#[trigger] grids[g])),
    ensures
        forall|k: int|
            0 <= k < gathered_units(grids, keyword).len() ==> in_date_order(
                #[trigger] gathered_units(grids, keyword)[k],
            ),
    decreases grids.len(),
{
    if grids.len() > 0 {
        let front = grids.drop_last();
        assert forall|g: int| 0 <= g < front.len() implies well_formed(
            Event::Grid(#[trigger] front[g]),
        ) by {
            assert(front[g] == grids[g]);
        }
        lemma_gathered_units_in_date_order(front, keyword);
        let had = gathered_units(front, keyword);
        let added = grid_units(grids.last(), keyword);
        assert(well_formed(Event::Grid(grids[grids.len() - 1])));
        if let Some(grid) = grids.last() {
            let units = views(grid.facility.units@);
            assert forall|k: int| 0 <= k < units.len() implies distinct_dates(
                #[trigger] units[k].slices,
            ) by {
                assert(units[k] == grid.facility.units@[k]@);
            }
            lemma_reported_units_in_date_order(units, keyword);
        }
        assert forall|k: int| 0 <= k < (had + added).len() implies in_date_order(
            #[trigger] (had + added)[k],
        ) by {
            if k < had.len() {
                assert((had + added)[k] == had[k]);
            } else {
                assert((had + added)[k] == added[k - had.len()]);
            }
        }
    }
}

/// Every snapshot is sound where every unit that the answers bring has
/// one slice per date: each of its parks has a unit, and each unit holds
/// its slices in strictly ascending order of date, no two of one date.
pub proof fn lemma_snapshot_is_sound(
    parks: Seq<StatePark>,
    answers: Seq<Answers>,
    keyword: Seq<char>,
)
    requires
        answers.len() == parks.len(),
        forall|i: int| 0 <= i < answers.len() ==> one_slice_per_date(#[trigger] answers[i]),
    ensures
        sound_snapshot(snapshot_of(parks, answers, keyword)),
    decreases parks.len(),
{
    if parks.len() > 0 {
        let front = answers.drop_last();
        assert forall|i: int| 0 <= i < front.len() implies one_slice_per_date(
            #[trigger] front[i],
        ) by {
            assert(front[i] == answers[i]);
        }
        lemma_snapshot_is_sound(parks.drop_last(), front, keyword);
        let last = answers.last();
        assert(one_slice_per_date(answers[answers.len() - 1]));
        lemma_gathered_units_in_date_order(last.grids, keyword);
    }
}

/// The run and the step after the events, one after another, from `start` on.
pub open spec fn feed(start: (Run, Step), events: Seq<Event>) -> (Run, Step)
    decreases events.len(),
{
    if events.len() == 0 {
        start
    } else {
        feed(start, events.drop_last()).0.next(events.last())
    }
}

/// After a single event the run is one step on.
pub proof fn lemma_feed_once(start: (Run, Step), events: Seq<Event>)
    requires
        events.len() == 1,
    ensures
        feed(start, events) == start.0.next(events[0]),
{
    reveal_with_fuel(feed, 2);
}

/// Feeding events in two parts is feeding them at once.
pub proof fn lemma_feed_in_parts(start: (Run, Step), first: Seq<Event>, second: Seq<Event>)
    ensures
        feed(start, first + second) == feed(feed(start, first), second),
    decreases second.len(),
{
    if second.len() == 0 {
        assert(first + second =~= first);
    } else {
        lemma_feed_in_parts(start, first, second.drop_last());
        assert((first + second).drop_last() =~= first + second.drop_last());
        assert((first + second).last() == second.last());
    }
}

/// A run between two parks: `done` parks are done and reported in `reports`.
pub open spec fn between_parks(run: Run, done: nat, reports: Seq<ParkReport>) -> Run {
    Run {
        park: done,
        reports,
        units: Seq::empty(),
        facilities: Seq::empty(),
        facility: 0,
        ..run
    }
}

/// The reports after a park to which `units` were brought.
pub open spec fn with_park(
    reports: Seq<ParkReport>,
    park: StatePark,
    units: Seq<UnitReport>,
) -> Seq<ParkReport> {
    if units.len() > 0 {
        reports.push(park_report(park, units))
    } else {
        reports
    }
}

proof fn lemma_grids_of_a_park(run: Run, place: Place, grids: Seq<Option<GridFacility>>, n: int)
    requires
        run.stage == Stage::Place,
        run.park < run.parks.len(),
        run.units.len() == 0,
        0 <= n <= grids.len(),
        grids.len() == place.selected_place.facilities@.len(),
    ensures
        feed(
            (run, Step::Halt),
            seq![Event::Place(Some(place))] + grid_events(grids.take(n)),
        ) == (Run {
            facilities: place.selected_place.facilities@,
            facility: n as nat,
            units: gathered_units(grids.take(n), run.keyword),
            ..run
        }).open_facility(),
    decreases n,
{
    let start = (run, Step::Halt);
    let first = seq![Event::Place(Some(place))];
    if n == 0 {
        assert(grids.take(0) =~= Seq::<Option<GridFacility>>::empty());
        assert(first + grid_events(grids.take(0)) =~= first);
        lemma_feed_once(start, first);
        assert(run.units =~= Seq::<UnitReport>::empty());
    } else {
        lemma_grids_of_a_park(run, place, grids, n - 1);
        let events = first + grid_events(grids.take(n));
        assert(events.drop_last() =~= first + grid_events(grids.take(n - 1)));
        assert(events.last() == Event::Grid(grids[n - 1]));
        assert(grids.take(n).drop_last() =~= grids.take(n - 1));
        assert(grids.take(n).last() == grids[n - 1]);
        let had = gathered_units(grids.take(n - 1), run.keyword);
        let at = Run {
            facilities: place.selected_place.facilities@,
            facility: (n - 1) as nat,
            units: had,
            ..run
        };
        assert(feed(start, events.drop_last()) == at.open_facility());
        match grids[n - 1] {
            Some(grid) => {},
            None => {
                assert(had + grid_units(None, run.keyword) =~= had);
            },
        }
    }
}

/// One park: from the search of its place to the turn to the next park,
/// the run adds the park's report where its grids bring a unit, and
/// nothing else.
pub proof fn lemma_one_park(run: Run, answers: Answers)
    requires
        run.stage == Stage::Place,
        run.park < run.parks.len(),
        answers.complete(),
        run == between_parks(run, run.park, run.reports),
    ensures
        feed((run, Step::Halt), answers.events()) == between_parks(
            run,
            run.park + 1,
            with_park(run.reports, run.parks[run.park as int], answers.units(run.keyword)),
        ).open_park(),
{
    let start = (run, Step::Halt);
    match answers.place {
        Some(place) => {
            lemma_grids_of_a_park(run, place, answers.grids, answers.grids.len() as int);
            assert(answers.grids.take(answers.grids.len() as int) =~= answers.grids);
        },
        None => {
            let events = answers.events();
            assert(answers.grids =~= Seq::<Option<GridFacility>>::empty());
            assert(events =~= seq![Event::Place(None)]);
            lemma_feed_once(start, events);
        },
    }
}

proof fn lemma_parks_in_turn(run: Run, answers: Seq<Answers>, n: int)
    requires
        run == between_parks(run, 0, Seq::empty()),
        0 <= n <= run.parks.len(),
        answers.len() == run.parks.len(),
        forall|i: int| 0 <= i < answers.len() ==> (#[trigger] answers[i]).complete(),
    ensures
        feed(run.open_park(), events_of(answers.take(n))) == between_parks(
            run,
            n as nat,
            snapshot_of(run.parks.take(n), answers.take(n), run.keyword),
        ).open_park(),
    decreases n,
{
    if n == 0 {
        assert(answers.take(0) =~= Seq::<Answers>::empty());
        assert(run.parks.take(0) =~= Seq::<StatePark>::empty());
    } else {
        lemma_parks_in_turn(run, answers, n - 1);
        let before = snapshot_of(run.parks.take(n - 1), answers.take(n - 1), run.keyword);
        let opened = between_parks(run, (n - 1) as nat, before).open_park();
        assert(answers.take(n).drop_last() =~= answers.take(n - 1));
        assert(answers.take(n).last() == answers[n - 1]);
        assert(run.parks.take(n).drop_last() =~= run.parks.take(n - 1));
        assert(run.parks.take(n).last() == run.parks[n - 1]);
        lemma_feed_in_parts(
            run.open_park(),
            events_of(answers.take(n - 1)),
            answers[n - 1].events(),
        );
        assert(opened.0.stage == Stage::Place);
        lemma_one_park(opened.0, answers[n - 1]);
        lemma_feed_from_any_step(opened, answers[n - 1].events());
    }
}

proof fn lemma_feed_from_any_step(start: (Run, Step), events: Seq<Event>)
    requires
        events.len() > 0,
    ensures
        feed(start, events) == feed((start.0, Step::Halt), events),
    decreases events.len(),
{
    if events.len() > 1 {
        lemma_feed_from_any_step(start, events.drop_last());
    } else {
        lemma_feed_once(start, events);
        lemma_feed_once((start.0, Step::Halt), events);
    }
}

/// The run gathers the snapshot: once the directory has come, the
/// answers for its parks, fed in turn, end in the one step that finishes
/// the run, and the snapshot to store is the one that the answers
/// determine.  No answer makes the run fail.
pub proof fn lemma_run_gathers_snapshot(
    keyword: Seq<char>,
    delay_ms: u64,
    entries: Vec<StatePark>,
    answers: Seq<Answers>,
)
    requires
        answers.len() == parks_among(entries@).len(),
        forall|i: int| 0 <= i < answers.len() ==> (#[trigger] answers[i]).complete(),
    ensures
        feed(
            (Run { stage: Stage::Directory, ..Run::fresh(keyword, delay_ms) }).next(
                Event::Directory(Some(entries)),
            ),
            events_of(answers),
        ).1 == (Step::Finish {
            snapshot: snapshot_of(parks_among(entries@), answers, keyword),
            store: true,
        }),
{
    let parks = parks_among(entries@);
    let run = Run { parks, ..Run::fresh(keyword, delay_ms) };
    assert(run == between_parks(run, 0, Seq::empty()));
    lemma_parks_in_turn(run, answers, parks.len() as int);
    assert(answers.take(parks.len() as int) =~= answers);
    assert(parks.take(parks.len() as int) =~= parks);
}

/// A cached snapshot ends the run at once: the first step hands out the
/// snapshot as it was cached, not to be stored again, and whatever comes
/// after, the run asks nothing of the service.
pub proof fn lemma_cached_snapshot_ends_run(
    keyword: Seq<char>,
    delay_ms: u64,
    snapshot: Vec<ParsedPark>,
    later: Seq<Event>,
)
    ensures
        Run::fresh(keyword, delay_ms).next(Event::Cache(Cached::Snapshot(snapshot))).1 == (
        Step::Finish { snapshot: views(snapshot@), store: false }),
        later.len() > 0 ==> feed(
            Run::fresh(keyword, delay_ms).next(Event::Cache(Cached::Snapshot(snapshot))),
            later,
        ).1 == Step::Halt,
        !feed(
            Run::fresh(keyword, delay_ms).next(Event::Cache(Cached::Snapshot(snapshot))),
            later,
        ).1.asks_service(),
    decreases later.len(),
{
    let start = Run::fresh(keyword, delay_ms).next(Event::Cache(Cached::Snapshot(snapshot)));
    lemma_done_stays_done(start, later);
}

proof fn lemma_done_stays_done(start: (Run, Step), later: Seq<Event>)
    requires
        start.0.stage == Stage::Done,
    ensures
        feed(start, later).0.stage == Stage::Done,
        later.len() > 0 ==> feed(start, later).1 == Step::Halt,
    decreases later.len(),
{
    if later.len() > 0 {
        lemma_done_stays_done(start, later.drop_last());
    }
}

/// A park whose place brings no result is passed over: the snapshot is
/// the one of the other parks under their answers, as if the park were
/// not in the directory.
pub proof fn lemma_failed_place_is_passed_over(
    parks: Seq<StatePark>,
    answers: Seq<Answers>,
    keyword: Seq<char>,
    failed: int,
)
    requires
        answers.len() == parks.len(),
        0 <= failed < parks.len(),
        answers[failed].place is None,
    ensures
        snapshot_of(parks, answers, keyword) == snapshot_of(
            parks.remove(failed),
            answers.remove(failed),
            keyword,
        ),
    decreases parks.len(),
{
    if failed == parks.len() - 1 {
        assert(parks.remove(failed) =~= parks.drop_last());
        assert(answers.remove(failed) =~= answers.drop_last());
    } else {
        lemma_failed_place_is_passed_over(
            parks.drop_last(),
            answers.drop_last(),
            keyword,
            failed,
        );
        assert(parks.remove(failed).drop_last() =~= parks.drop_last().remove(failed));
        assert(answers.remove(failed).drop_last() =~= answers.drop_last().remove(failed));
        assert(parks.remove(failed).last() == parks.last());
        assert(answers.remove(failed).last() == answers.last());
    }
}

/// Every search of a place or of a grid is sent after the wait that the
/// run was given.
pub proof fn lemma_every_search_waits(run: Run, event: Event)
    ensures
        run.next(event).1 matches Step::ResolvePlace { delay_ms, .. } ==> delay_ms == run.delay_ms,
        run.next(event).1 matches Step::FetchGrid { delay_ms, .. } ==> delay_ms == run.delay_ms,
        run.next(event).0.delay_ms == run.delay_ms,
        run.next(event).0.keyword == run.keyword,
{
}

/// Once the directory has come no event makes the run fail.
pub proof fn lemma_no_failure_after_directory(run: Run, event: Event)
    requires
        run.stage == Stage::Place || run.stage == Stage::Grid,
    ensures
        !(run.next(event).1 is Fail),
        run.next(event).0.stage != Stage::Failed,
{
}

} // verus!
