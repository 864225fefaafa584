//! The run that gathers the reports: which request comes next, and what
//! becomes of each answer.
//!
//! A [`Pipeline`] does no input or output.  It names the next [`Action`],
//! its driver performs it and hands back what came of it as an
//! [`Event`], and so on until the action is to finish or to fail.  A
//! snapshot found in the cache ends the run at once; without one the
//! directory is fetched, then for each park its place, and for each
//! facility of the place its grid.  A place or a grid that brings no
//! result is passed over; only the directory is needed.  An event that
//! does not answer the request that was named counts as no result.

use crate::model::{
    views, EntityType, GridFacility, ParkReport, ParsedPark, ParsedUnit, Place, PlaceFacility,
    StatePark, UnitReport,
};
use crate::model::distinct_dates;
use crate::report::{in_date_order, lemma_reported_units_in_date_order, reported_units};
use crate::text::{decimal_string, signed_decimal};
use vstd::prelude::*;
use vstd::string::*;

verus! {

/// How far a run has come.
#[derive(Clone, Copy, Debug, PartialEq, Eq, Structural)]
pub enum Stage {
    /// The cache is being read.
    Cache,
    /// The directory is being fetched.
    Directory,
    /// The place of the park in work is being resolved.
    Place,
    /// The grid of the facility in work is being fetched.
    Grid,
    /// The snapshot has been handed out.
    Done,
    /// The run has failed.
    Failed,
}

/// Why a run failed.
#[derive(Clone, Copy, Debug, PartialEq, Eq, Structural)]
pub enum Failure {
    /// The cache is there but cannot be read as a snapshot.
    CorruptCache,
    /// The directory could not be had.
    NoDirectory,
}

impl Failure {
    /// What to tell the user.
    pub fn message(&self) -> (s: String)
        ensures
            s@ == (match *self {
                Failure::CorruptCache => "the cached snapshot cannot be read"@,
                Failure::NoDirectory => "the directory of parks cannot be had"@,
            }),
    {
        match self {
            Failure::CorruptCache => String::from_str("the cached snapshot cannot be read"),
            Failure::NoDirectory => String::from_str("the directory of parks cannot be had"),
        }
    }
}

/// What was found in the cache.
#[derive(Clone, Debug, PartialEq, Eq)]
pub enum Cached {
    /// Nothing that could be read.
    Missing,
    /// Something that is no snapshot.
    Corrupt,
    /// A snapshot.
    Snapshot(Vec<ParsedPark>),
}

/// What came of an action.
#[derive(Clone, Debug, PartialEq, Eq)]
pub enum Event {
    /// The cache was read.
    Cache(Cached),
    /// The directory was asked for: its entries, or no result.
    Directory(Option<Vec<StatePark>>),
    /// A place was asked for: its detail, or no result.
    Place(Option<Place>),
    /// A grid was asked for: the facility's units, or no result.
    Grid(Option<GridFacility>),
}

/// What the driver is to do next.
#[derive(Clone, Debug, PartialEq, Eq)]
pub enum Action {
    /// Read the cache.
    ReadCache,
    /// Fetch the directory.
    FetchDirectory,
    /// Wait, then search the place.
    ResolvePlace { place_id: String, delay_ms: u64 },
    /// Wait, then search the facility's grid.
    FetchGrid { facility_id: String, delay_ms: u64 },
    /// Show the snapshot, after storing it in the cache where `store` is set.
    Finish { snapshot: Vec<ParsedPark>, store: bool },
    /// Give up.
    Fail(Failure),
    /// Nothing: the run has ended.
    Halt,
}

/// What an [`Action`] holds.
pub enum Step {
    ReadCache,
    FetchDirectory,
    ResolvePlace { place_id: Seq<char>, delay_ms: u64 },
    FetchGrid { facility_id: Seq<char>, delay_ms: u64 },
    Finish { snapshot: Seq<ParkReport>, store: bool },
    Fail(Failure),
    Halt,
}

impl View for Action {
    type V = Step;

    open spec fn view(&self) -> Step {
        match *self {
            Action::ReadCache => Step::ReadCache,
            Action::FetchDirectory => Step::FetchDirectory,
            Action::ResolvePlace { place_id, delay_ms } => Step::ResolvePlace {
                place_id: place_id@,
                delay_ms,
            },
            Action::FetchGrid { facility_id, delay_ms } => Step::FetchGrid {
                facility_id: facility_id@,
                delay_ms,
            },
            Action::Finish { snapshot, store } => Step::Finish { snapshot: views(snapshot@), store },
            Action::Fail(failure) => Step::Fail(failure),
            Action::Halt => Step::Halt,
        }
    }
}

impl Step {
    /// Whether the step sends a request to the service.
    pub open spec fn asks_service(self) -> bool {
        self is FetchDirectory || self is ResolvePlace || self is FetchGrid
    }
}

/// Whether the directory entry is a park.
pub open spec fn is_park(entry: StatePark) -> bool {
    entry.entity_type == Some(EntityType::Park)
}

/// The parks among the directory's entries, in the order of the entries.
pub open spec fn parks_among(entries: Seq<StatePark>) -> Seq<StatePark>
    decreases entries.len(),
{
    if entries.len() == 0 {
        Seq::empty()
    } else if is_park(entries.last()) {
        parks_among(entries.drop_last()).push(entries.last())
    } else {
        parks_among(entries.drop_last())
    }
}

/// The parks among the directory's entries, in the order of the entries.
pub fn select_parks(entries: Vec<StatePark>) -> (parks: Vec<StatePark>)
    ensures
        parks@ == parks_among(entries@),
{
    let ghost all = entries@;
    let mut rest = entries;
    let mut parks: Vec<StatePark> = Vec::new();
    let ghost mut seen: int = 0;
    assert(all.take(0) =~= Seq::<StatePark>::empty());
    while rest.len() > 0
        invariant
            0 <= seen <= all.len(),
            rest@ == all.skip(seen),
            parks@ == parks_among(all.take(seen)),
        decreases rest.len(),
    {
        let entry = rest.remove(0);
        proof {
            assert(entry == all[seen]);
            assert(all.take(seen + 1).drop_last() =~= all.take(seen));
            assert(all.take(seen + 1).last() == entry);
            assert(rest@ =~= all.skip(seen + 1));
            seen = seen + 1;
        }
        let keep = match entry.entity_type {
            Some(EntityType::Park) => true,
            _ => false,
        };
        if keep {
            parks.push(entry);
        }
    }
    assert(all.take(all.len() as int) =~= all);
    parks
}

/// The report of `park` with the given units.
pub open spec fn park_report(park: StatePark, units: Seq<UnitReport>) -> ParkReport {
    ParkReport { name: park.name@, latitude: park.latitude, longitude: park.longitude, units }
}

/// Whether a park report holds a unit, and each of its units holds its
/// slices in strictly ascending order of date.
pub open spec fn sound_report(report: ParkReport) -> bool {
    &&& report.units.len() > 0
    &&& forall|k: int| 0 <= k < report.units.len() ==> in_date_order(#[trigger] report.units[k])
}

/// Whether every report of the snapshot is sound.
pub open spec fn sound_snapshot(snapshot: Seq<ParkReport>) -> bool {
    forall|i: int| 0 <= i < snapshot.len() ==> sound_report(#[trigger] snapshot[i])
}

/// Whether every unit that the event brings has one slice per date.
pub open spec fn well_formed(event: Event) -> bool {
    event matches Event::Grid(Some(grid)) ==> forall|k: int|
        0 <= k < grid.facility.units@.len() ==> distinct_dates(
            (#[trigger] grid.facility.units@[k])@.slices,
        )
}

/// What a [`Pipeline`] holds.
pub struct Run {
    pub stage: Stage,
    /// What the name of a unit must mention for the unit to be reported.
    pub keyword: Seq<char>,
    /// The wait before each search of a place or a grid, in milliseconds.
    pub delay_ms: u64,
    /// The parks of the directory.
    pub parks: Seq<StatePark>,
    /// How many of the parks are done.
    pub park: nat,
    /// The facilities of the park in work.
    pub facilities: Seq<PlaceFacility>,
    /// How many of the facilities are done.
    pub facility: nat,
    /// The units found so far for the park in work.
    pub units: Seq<UnitReport>,
    /// The reports of the parks that are done.
    pub reports: Seq<ParkReport>,
}

impl Run {
    /// A run that has not begun.
    pub open spec fn fresh(keyword: Seq<char>, delay_ms: u64) -> Run {
        Run {
            stage: Stage::Cache,
            keyword,
            delay_ms,
            parks: Seq::empty(),
            park: 0,
            facilities: Seq::empty(),
            facility: 0,
            units: Seq::empty(),
            reports: Seq::empty(),
        }
    }

    /// Turns to the next park, or finishes where none is left.
    pub open spec fn open_park(self) -> (Run, Step) {
        if self.park < self.parks.len() {
            (
                Run { stage: Stage::Place, ..self },
                Step::ResolvePlace {
                    place_id: signed_decimal(self.parks[self.park as int].place_id as int),
                    delay_ms: self.delay_ms,
                },
            )
        } else {
            (
                Run { stage: Stage::Done, reports: Seq::empty(), ..self },
                Step::Finish { snapshot: self.reports, store: true },
            )
        }
    }

    /// Reports the park in work if a unit was found for it, and turns to
    /// the next park.
    pub open spec fn close_park(self) -> (Run, Step) {
        let reports = if self.units.len() > 0 {
            self.reports.push(park_report(self.parks[self.park as int], self.units))
        } else {
            self.reports
        };
        (Run {
            reports,
            units: Seq::empty(),
            facilities: Seq::empty(),
            facility: 0,
            park: self.park + 1,
            ..self
        }).open_park()
    }

    /// Turns to the next facility of the park in work, or closes the
    /// park where none is left.
    pub open spec fn open_facility(self) -> (Run, Step) {
        if self.facility < self.facilities.len() {
            (
                Run { stage: Stage::Grid, ..self },
                Step::FetchGrid {
                    facility_id: signed_decimal(
                        self.facilities[self.facility as int].facility_id as int,
                    ),
                    delay_ms: self.delay_ms,
                },
            )
        } else {
            self.close_park()
        }
    }

    /// The run after `event`, and the step to take next.
    pub open spec fn next(self, event: Event) -> (Run, Step) {
        match self.stage {
            Stage::Cache => match event {
                Event::Cache(Cached::Snapshot(snapshot)) => (
                    Run { stage: Stage::Done, ..self },
                    Step::Finish { snapshot: views(snapshot@), store: false },
                ),
                Event::Cache(Cached::Corrupt) => (
                    Run { stage: Stage::Failed, ..self },
                    Step::Fail(Failure::CorruptCache),
                ),
                _ => (Run { stage: Stage::Directory, ..self }, Step::FetchDirectory),
            },
            Stage::Directory => match event {
                Event::Directory(Some(entries)) => (Run {
                    parks: parks_among(entries@),
                    park: 0,
                    ..self
                }).open_park(),
                _ => (Run { stage: Stage::Failed, ..self }, Step::Fail(Failure::NoDirectory)),
            },
            Stage::Place => match event {
                Event::Place(Some(place)) => (Run {
                    facilities: place.selected_place.facilities@,
                    facility: 0,
                    ..self
                }).open_facility(),
                _ => self.close_park(),
            },
            Stage::Grid => match event {
                Event::Grid(Some(grid)) => (Run {
                    units: self.units + reported_units(
                        views(grid.facility.units@),
                        self.keyword,
                    ),
                    facility: self.facility + 1,
                    ..self
                }).open_facility(),
                _ => (Run { facility: self.facility + 1, ..self }).open_facility(),
            },
            Stage::Done => (self, Step::Halt),
            Stage::Failed => (self, Step::Halt),
        }
    }

    /// What holds of every run that began fresh: the park and the
    /// facility in work exist while their answers are awaited, and every
    /// unit and every report gathered so far is sound.
    pub open spec fn wf(self) -> bool {
        &&& self.park <= self.parks.len()
        &&& self.facility <= self.facilities.len()
        &&& self.stage == Stage::Place ==> self.park < self.parks.len()
        &&& self.stage == Stage::Grid ==> self.park < self.parks.len() && self.facility
            < self.facilities.len()
        &&& forall|k: int| 0 <= k < self.units.len() ==> in_date_order(#[trigger] self.units[k])
        &&& sound_snapshot(self.reports)
    }
}

/// The sound invariant lasts: after any well-formed event a run that
/// was well formed is so still, and a snapshot that it hands out for
/// storing is sound.
pub proof fn lemma_next_keeps_wf(run: Run, event: Event)
    requires
        run.wf(),
        well_formed(event),
    ensures
        run.next(event).0.wf(),
        run.next(event).1 matches Step::Finish { snapshot, store } ==> store ==> sound_snapshot(
            snapshot,
        ),
{
    if run.stage == Stage::Grid {
        if let Event::Grid(Some(grid)) = event {
            let units = views(grid.facility.units@);
            assert forall|k: int| 0 <= k < units.len() implies distinct_dates(
                #[trigger] units[k].slices,
            ) by {
                assert(units[k] == grid.facility.units@[k]@);
            }
            lemma_reported_units_in_date_order(units, run.keyword);
        }
    }
}

/// A run: the state of the gathering between two actions.
pub struct Pipeline {
    stage: Stage,
    keyword: String,
    delay_ms: u64,
    parks: Vec<StatePark>,
    park: usize,
    facilities: Vec<PlaceFacility>,
    facility: usize,
    units: Vec<ParsedUnit>,
    reports: Vec<ParsedPark>,
}

impl View for Pipeline {
    type V = Run;

    closed spec fn view(&self) -> Run {
        Run {
            stage: self.stage,
            keyword: self.keyword@,
            delay_ms: self.delay_ms,
            parks: self.parks@,
            park: self.park as nat,
            facilities: self.facilities@,
            facility: self.facility as nat,
            units: views(self.units@),
            reports: views(self.reports@),
        }
    }
}

impl Pipeline {
    #[verifier::type_invariant]
    spec fn sound(self) -> bool {
        self@.wf()
    }

    /// A run for the units whose name mentions `keyword`, which waits
    /// `delay_ms` milliseconds before each search.  Its first action is
    /// to read the cache.
    pub fn start(keyword: &str, delay_ms: u64) -> (r: (Pipeline, Action))
        ensures
            r.0@ == Run::fresh(keyword@, delay_ms),
            r.1@ == Step::ReadCache,
    {
        let pipeline = Pipeline {
            stage: Stage::Cache,
            keyword: String::from_str(keyword),
            delay_ms,
            parks: Vec::new(),
            park: 0,
            facilities: Vec::new(),
            facility: 0,
            units: Vec::new(),
            reports: Vec::new(),
        };
        assert(pipeline@ =~= Run::fresh(keyword@, delay_ms)) by {
            assert(views(pipeline.units@) =~= Seq::<UnitReport>::empty());
            assert(views(pipeline.reports@) =~= Seq::<ParkReport>::empty());
        }
        (pipeline, Action::ReadCache)
    }

    /// A run for the backpacking units, with a tenth of a second before
    /// each search.
    pub fn backpacking() -> (r: (Pipeline, Action))
        ensures
            r.0@ == Run::fresh("backpack"@, 100),
            r.1@ == Step::ReadCache,
    {
        Pipeline::start("backpack", 100)
    }

    /// How far the run has come.
    pub fn stage(&self) -> (r: Stage)
        ensures
            r == self@.stage,
    {
        self.stage
    }

    /// Whether the run has ended, so that every further action is to halt.
    pub fn has_ended(&self) -> (r: bool)
        ensures
            r == (self@.stage == Stage::Done || self@.stage == Stage::Failed),
    {
        match self.stage {
            Stage::Done => true,
            Stage::Failed => true,
            _ => false,
        }
    }

    /// The run after `event`, and the action to take next.
    ///
    /// A snapshot that is handed out for storing is sound: each of its
    /// parks has a unit, and each unit holds its slices in strictly
    /// ascending order of date.
    pub fn step(self, event: Event) -> (r: (Pipeline, Action))
        ensures
            (r.0@, r.1@) == self@.next(event),
            r.1@ matches Step::Finish { snapshot, store } ==> store ==> sound_snapshot(snapshot),
    {
        proof {
            use_type_invariant(&self);
        }
        let ghost before = self@;
        let Pipeline {
            stage,
            keyword,
            delay_ms,
            parks,
            park,
            facilities,
            facility,
            units,
            reports,
        } = self;
        proof {
            assert(before.wf());
            assert(before.units == views(units@));
            assert(stage == Stage::Grid ==> facility < facilities.len());
            assert(stage == Stage::Place ==> park < parks.len());
            assert(forall|k: int|
                0 <= k < before.units.len() ==> in_date_order(#[trigger] before.units[k]));
            assert forall|k: int| 0 <= k < units.len() implies in_date_order(
                #[trigger] units[k]@,
            ) by {
                assert(views(units@)[k] == units[k]@);
            }
        }
        match stage {
            Stage::Cache => match event {
                Event::Cache(Cached::Snapshot(snapshot)) => (
                    Pipeline {
                        stage: Stage::Done,
                        keyword,
                        delay_ms,
                        parks,
                        park,
                        facilities,
                        facility,
                        units,
                        reports,
                    },
                    Action::Finish { snapshot, store: false },
                ),
                Event::Cache(Cached::Corrupt) => (
                    Pipeline {
                        stage: Stage::Failed,
                        keyword,
                        delay_ms,
                        parks,
                        park,
                        facilities,
                        facility,
                        units,
                        reports,
                    },
                    Action::Fail(Failure::CorruptCache),
                ),
                _ => (
                    Pipeline {
                        stage: Stage::Directory,
                        keyword,
                        delay_ms,
                        parks,
                        park,
                        facilities,
                        facility,
                        units,
                        reports,
                    },
                    Action::FetchDirectory,
                ),
            },
            Stage::Directory => match event {
                Event::Directory(Some(entries)) => {
                    let parks = select_parks(entries);
                    open_park(keyword, delay_ms, parks, 0, facilities, facility, units, reports)
                },
                _ => (
                    Pipeline {
                        stage: Stage::Failed,
                        keyword,
                        delay_ms,
                        parks,
                        park,
                        facilities,
                        facility,
                        units,
                        reports,
                    },
                    Action::Fail(Failure::NoDirectory),
                ),
            },
            Stage::Place => match event {
                Event::Place(Some(place)) => {
                    let Place { selected_place } = place;
                    open_facility(
                        keyword,
                        delay_ms,
                        parks,
                        park,
                        selected_place.facilities,
                        0,
                        units,
                        reports,
                    )
                },
                _ => close_park(keyword, delay_ms, parks, park, units, reports),
            },
            Stage::Grid => match event {
                Event::Grid(Some(grid)) => {
                    let mut units = units;
                    let ghost had = units@;
                    grid.facility.report_units(keyword.as_str(), &mut units);
                    proof {
                        assert forall|k: int| 0 <= k < had.len() implies in_date_order(
                            #[trigger] units[k]@,
                        ) by {
                            assert(views(units@)[k] == views(had)[k]);
                            assert(views(units@)[k] == units[k]@);
                            assert(views(had)[k] == had[k]@);
                        }
                    }
                    open_facility(
                        keyword,
                        delay_ms,
                        parks,
                        park,
                        facilities,
                        facility + 1,
                        units,
                        reports,
                    )
                },
                _ => open_facility(
                    keyword,
                    delay_ms,
                    parks,
                    park,
                    facilities,
                    facility + 1,
                    units,
                    reports,
                ),
            },
            Stage::Done => (
                Pipeline {
                    stage: Stage::Done,
                    keyword,
                    delay_ms,
                    parks,
                    park,
                    facilities,
                    facility,
                    units,
                    reports,
                },
                Action::Halt,
            ),
            Stage::Failed => (
                Pipeline {
                    stage: Stage::Failed,
                    keyword,
                    delay_ms,
                    parks,
                    park,
                    facilities,
                    facility,
                    units,
                    reports,
                },
                Action::Halt,
            ),
        }
    }
}

fn open_park(
    keyword: String,
    delay_ms: u64,
    parks: Vec<StatePark>,
    park: usize,
    facilities: Vec<PlaceFacility>,
    facility: usize,
    units: Vec<ParsedUnit>,
    reports: Vec<ParsedPark>,
) -> (r: (Pipeline, Action))
    requires
        park <= parks.len(),
        facility <= facilities.len(),
        forall|k: int| 0 <= k < units.len() ==> in_date_order(#[trigger] units[k]@),
        sound_snapshot(views(reports@)),
    ensures
        (r.0@, r.1@) == (Run {
            stage: Stage::Cache,
            keyword: keyword@,
            delay_ms,
            parks: parks@,
            park: park as nat,
            facilities: facilities@,
            facility: facility as nat,
            units: views(units@),
            reports: views(reports@),
        }).open_park(),
        r.1@ matches Step::Finish { snapshot, store } ==> sound_snapshot(snapshot),
{
    if park < parks.len() {
        let place_id = decimal_string(parks[park].place_id as i64);
        (
            Pipeline {
                stage: Stage::Place,
                keyword,
                delay_ms,
                parks,
                park,
                facilities,
                facility,
                units,
                reports,
            },
            Action::ResolvePlace { place_id, delay_ms },
        )
    } else {
        let pipeline = Pipeline {
            stage: Stage::Done,
            keyword,
            delay_ms,
            parks,
            park,
            facilities,
            facility,
            units,
            reports: Vec::new(),
        };
        assert(views(pipeline.reports@) =~= Seq::<ParkReport>::empty());
        (pipeline, Action::Finish { snapshot: reports, store: true })
    }
}

fn close_park(
    keyword: String,
    delay_ms: u64,
    parks: Vec<StatePark>,
    park: usize,
    units: Vec<ParsedUnit>,
    reports: Vec<ParsedPark>,
) -> (r: (Pipeline, Action))
    requires
        park < parks.len(),
        forall|k: int| 0 <= k < units.len() ==> in_date_order(#[trigger] units[k]@),
        sound_snapshot(views(reports@)),
    ensures
        (r.0@, r.1@) == (Run {
            stage: Stage::Cache,
            keyword: keyword@,
            delay_ms,
            parks: parks@,
            park: park as nat,
            facilities: Seq::empty(),
            facility: 0,
            units: views(units@),
            reports: views(reports@),
        }).close_park(),
        r.1@ matches Step::Finish { snapshot, store } ==> sound_snapshot(snapshot),
{
    let mut reports = reports;
    if units.len() > 0 {
        let ghost was = views(reports@);
        let ghost found = views(units@);
        proof {
            assert forall|k: int| 0 <= k < found.len() implies in_date_order(#[trigger] found[k]) by {
                assert(found[k] == units[k]@);
            }
        }
        let report = ParsedPark {
            name: parks[park].name.clone(),
            latitude: parks[park].latitude,
            longitude: parks[park].longitude,
            units,
        };
        assert(report@ == park_report(parks[park as int], found));
        assert(sound_report(report@));
        reports.push(report);
        assert(views(reports@) =~= was.push(report@));
    }
    let units: Vec<ParsedUnit> = Vec::new();
    assert(views(units@) =~= Seq::<UnitReport>::empty());
    open_park(keyword, delay_ms, parks, park + 1, Vec::new(), 0, units, reports)
}

fn open_facility(
    keyword: String,
    delay_ms: u64,
    parks: Vec<StatePark>,
    park: usize,
    facilities: Vec<PlaceFacility>,
    facility: usize,
    units: Vec<ParsedUnit>,
    reports: Vec<ParsedPark>,
) -> (r: (Pipeline, Action))
    requires
        park < parks.len(),
        facility <= facilities.len(),
        forall|k: int| 0 <= k < units.len() ==> in_date_order(#[trigger] units[k]@),
        sound_snapshot(views(reports@)),
    ensures
        (r.0@, r.1@) == (Run {
            stage: Stage::Cache,
            keyword: keyword@,
            delay_ms,
            parks: parks@,
            park: park as nat,
            facilities: facilities@,
            facility: facility as nat,
            units: views(units@),
            reports: views(reports@),
        }).open_facility(),
        r.1@ matches Step::Finish { snapshot, store } ==> sound_snapshot(snapshot),
{
    if facility < facilities.len() {
        let facility_id = decimal_string(facilities[facility].facility_id as i64);
        proof {
            assert forall|k: int| 0 <= k < views(units@).len() implies in_date_order(
                #[trigger] views(units@)[k],
            ) by {
                assert(views(units@)[k] == units[k]@);
            }
        }
        (
            Pipeline {
                stage: Stage::Grid,
                keyword,
                delay_ms,
                parks,
                park,
                facilities,
                facility,
                units,
                reports,
            },
            Action::FetchGrid { facility_id, delay_ms },
        )
    } else {
        close_park(keyword, delay_ms, parks, park, units, reports)
    }
}

} // verus!
