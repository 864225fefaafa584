use campsites::date::Date;
use campsites::model::{
    Coordinate, EntityType, Facility, GridFacility, ParsedPark, ParsedUnit, Place, PlaceFacility,
    SelectedPlace, Slice, StatePark, Unit, UnitType,
};
use campsites::pipeline::{select_parks, Action, Cached, Event, Failure, Pipeline, Stage};

fn ymd(year: i32, month: u32, day: u32) -> Date {
    Date::from_ymd(year, month, day).unwrap()
}

fn degrees(value: f64) -> Coordinate {
    Coordinate { bits: value.to_bits() }
}

fn entry(name: &str, place_id: u32, kind: Option<EntityType>) -> StatePark {
    StatePark {
        city_park_id: place_id as i32 + 1000,
        enterprise_id: 1,
        entity_type: kind,
        is_active: true,
        latitude: degrees(45.0 + place_id as f64),
        longitude: degrees(-93.5),
        name: name.to_string(),
        place_id,
        park_size: "Small".to_string(),
    }
}

fn park(name: &str, place_id: u32) -> StatePark {
    entry(name, place_id, Some(EntityType::Park))
}

fn facility(facility_id: i32) -> PlaceFacility {
    PlaceFacility {
        facility_id,
        name: format!("Campground {}", facility_id),
        description: String::new(),
        latitude: degrees(0.0),
        longitude: degrees(0.0),
        available: true,
        in_season: true,
    }
}

fn place(facilities: Vec<i32>) -> Place {
    Place {
        selected_place: SelectedPlace {
            name: "Somewhere".to_string(),
            description: "A place".to_string(),
            latitude: degrees(46.0),
            longitude: degrees(-94.0),
            available: true,
            facilities: facilities.into_iter().map(facility).collect(),
        },
    }
}

fn slice(date: Date, is_free: bool) -> Slice {
    Slice { date, is_free, min_stay: 1 }
}

fn unit(unit_id: i32, name: &str, short_name: &str, dates: Vec<Date>) -> Unit {
    let slices = dates.into_iter().map(|d| slice(d, true)).collect();
    Unit::new(unit_id, name.to_string(), short_name.to_string(), slices).unwrap()
}

fn grid(units: Vec<Unit>) -> GridFacility {
    GridFacility { facility: Facility { units } }
}

fn after_directory(parks: Vec<StatePark>) -> (Pipeline, Action) {
    let (pipeline, action) = Pipeline::backpacking();
    assert_eq!(Action::ReadCache, action);
    let (pipeline, action) = pipeline.step(Event::Cache(Cached::Missing));
    assert_eq!(Action::FetchDirectory, action);
    assert_eq!(Stage::Directory, pipeline.stage());
    pipeline.step(Event::Directory(Some(parks)))
}

fn resolve(place_id: &str) -> Action {
    Action::ResolvePlace { place_id: place_id.to_string(), delay_ms: 100 }
}

fn fetch(facility_id: &str) -> Action {
    Action::FetchGrid { facility_id: facility_id.to_string(), delay_ms: 100 }
}

#[test]
fn only_parks_are_taken_from_the_directory() {
    let entries = vec![
        entry("Duluth", 1, Some(EntityType::City)),
        park("Afton", 2),
        entry("Unknown", 3, None),
        park("Banning", 4),
        entry("St. Paul", 5, Some(EntityType::City)),
    ];
    let parks = select_parks(entries);
    assert_eq!(vec![park("Afton", 2), park("Banning", 4)], parks);
    assert_eq!(Vec::<StatePark>::new(), select_parks(Vec::new()));
}

#[test]
fn unit_type_identifiers() {
    assert_eq!(177, UnitType::Backpacking.id());
    assert_eq!(176, UnitType::BikeIn.id());
    assert_eq!(165, UnitType::CartIn.id());
}

#[test]
fn a_unit_has_one_slice_per_date() {
    let day = ymd(2022, 9, 15);
    let twice = vec![slice(day, true), slice(ymd(2022, 9, 16), true), slice(day, false)];
    assert_eq!(None, Unit::new(1, "Backpack 1".to_string(), "B1".to_string(), twice));
    let once = vec![slice(ymd(2022, 9, 16), true), slice(day, false)];
    let made = Unit::new(7, "Backpack 1".to_string(), "B1".to_string(), once.clone()).unwrap();
    assert_eq!(7, made.unit_id());
    assert_eq!("Backpack 1", made.name());
    assert_eq!("B1", made.short_name());
    assert_eq!(&once, made.slices());
    assert_eq!(made, made.clone());
    assert!(Unit::new(2, String::new(), String::new(), Vec::new()).is_some());
}

#[test]
fn report_of_a_unit_holds_its_slices_by_date() {
    let slices = vec![
        Slice { date: ymd(2022, 10, 2), is_free: false, min_stay: 2 },
        Slice { date: ymd(2022, 9, 30), is_free: true, min_stay: 1 },
        Slice { date: ymd(2022, 10, 1), is_free: true, min_stay: 3 },
    ];
    let given = Unit::new(3, "Backpack Site 3".to_string(), "BP3".to_string(), slices).unwrap();
    let report = ParsedUnit::from_unit(&given);
    assert_eq!("Backpack Site 3", report.name);
    assert_eq!("BP3", report.short_name);
    assert_eq!(
        vec![
            Slice { date: ymd(2022, 9, 30), is_free: true, min_stay: 1 },
            Slice { date: ymd(2022, 10, 1), is_free: true, min_stay: 3 },
            Slice { date: ymd(2022, 10, 2), is_free: false, min_stay: 2 },
        ],
        report.slices
    );
}

#[test]
fn units_of_a_grid_are_those_that_mention_the_keyword() {
    let day = ymd(2022, 9, 15);
    let units = vec![
        unit(1, "RV Pull-Through", "RV1", vec![day]),
        unit(2, "Backpack Site 4", "BP4", vec![day]),
        unit(3, "Cart-in 2", "C2", vec![day]),
        unit(4, "Remote BACKPACKING site", "BP9", vec![]),
    ];
    let mut found = vec![ParsedUnit {
        name: "Earlier".to_string(),
        short_name: "E".to_string(),
        slices: Vec::new(),
    }];
    grid(units).facility.report_units("backpack", &mut found);
    let names: Vec<&str> = found.iter().map(|u| u.short_name.as_str()).collect();
    assert_eq!(vec!["E", "BP4", "BP9"], names);
}

#[test]
fn a_run_gathers_the_units_of_every_park() {
    let first = ymd(2022, 9, 15);
    let second = ymd(2022, 9, 16);
    let (pipeline, action) = after_directory(vec![
        entry("Minneapolis", 9, Some(EntityType::City)),
        park("Afton", 12),
        park("Banning", 7),
    ]);
    assert_eq!(resolve("12"), action);
    assert_eq!(Stage::Place, pipeline.stage());

    let (pipeline, action) = pipeline.step(Event::Place(Some(place(vec![788, -3]))));
    assert_eq!(fetch("788"), action);
    assert_eq!(Stage::Grid, pipeline.stage());

    let (pipeline, action) = pipeline.step(Event::Grid(Some(grid(vec![
        unit(1, "Backpack Site 2", "BP2", vec![second, first]),
        unit(2, "Drive-in 1", "D1", vec![first]),
    ]))));
    assert_eq!(fetch("-3"), action);

    let (pipeline, action) = pipeline.step(Event::Grid(Some(grid(vec![unit(
        3,
        "Hike-in backpack 1",
        "BP1",
        vec![first],
    )]))));
    assert_eq!(resolve("7"), action);
    assert_eq!(Stage::Place, pipeline.stage());

    let (pipeline, action) = pipeline.step(Event::Place(Some(place(vec![5]))));
    assert_eq!(fetch("5"), action);

    let (pipeline, action) = pipeline.step(Event::Grid(Some(grid(vec![unit(
        4,
        "BACKPACK A",
        "A",
        vec![second],
    )]))));
    assert!(pipeline.has_ended());
    assert_eq!(Stage::Done, pipeline.stage());
    let expected = vec![
        ParsedPark {
            name: "Afton".to_string(),
            latitude: degrees(57.0),
            longitude: degrees(-93.5),
            units: vec![
                ParsedUnit {
                    name: "Backpack Site 2".to_string(),
                    short_name: "BP2".to_string(),
                    slices: vec![slice(first, true), slice(second, true)],
                },
                ParsedUnit {
                    name: "Hike-in backpack 1".to_string(),
                    short_name: "BP1".to_string(),
                    slices: vec![slice(first, true)],
                },
            ],
        },
        ParsedPark {
            name: "Banning".to_string(),
            latitude: degrees(52.0),
            longitude: degrees(-93.5),
            units: vec![ParsedUnit {
                name: "BACKPACK A".to_string(),
                short_name: "A".to_string(),
                slices: vec![slice(second, true)],
            }],
        },
    ];
    assert_eq!(Action::Finish { snapshot: expected, store: true }, action);

    let (pipeline, action) = pipeline.step(Event::Place(None));
    assert_eq!(Action::Halt, action);
    assert!(pipeline.has_ended());
}

#[test]
fn a_park_without_a_place_is_passed_over() {
    let day = ymd(2022, 9, 15);
    let (pipeline, action) = after_directory(vec![park("A", 1), park("B", 2)]);
    assert_eq!(resolve("1"), action);
    let (pipeline, action) = pipeline.step(Event::Place(None));
    assert_eq!(resolve("2"), action);
    assert!(!pipeline.has_ended());
    let (pipeline, action) = pipeline.step(Event::Place(Some(place(vec![20]))));
    assert_eq!(fetch("20"), action);
    let (_, action) =
        pipeline.step(Event::Grid(Some(grid(vec![unit(1, "Backpack 1", "1", vec![day])]))));
    match action {
        Action::Finish { snapshot, store } => {
            assert!(store);
            assert_eq!(1, snapshot.len());
            assert_eq!("B", snapshot[0].name);
            assert_eq!(1, snapshot[0].units.len());
        }
        other => panic!("unexpected action {:?}", other),
    }
}

#[test]
fn a_facility_without_a_grid_is_passed_over() {
    let day = ymd(2022, 9, 15);
    let (pipeline, _) = after_directory(vec![park("A", 1)]);
    let (pipeline, action) = pipeline.step(Event::Place(Some(place(vec![10, 11, 12]))));
    assert_eq!(fetch("10"), action);
    let (pipeline, action) = pipeline.step(Event::Grid(None));
    assert_eq!(fetch("11"), action);
    let (pipeline, action) =
        pipeline.step(Event::Grid(Some(grid(vec![unit(5, "backpack", "b", vec![day])]))));
    assert_eq!(fetch("12"), action);
    let (_, action) = pipeline.step(Event::Grid(None));
    match action {
        Action::Finish { snapshot, store: true } => {
            assert_eq!(1, snapshot.len());
            assert_eq!("A", snapshot[0].name);
            assert_eq!(vec!["b"], snapshot[0].units.iter().map(|u| &u.short_name[..]).collect::<Vec<_>>());
        }
        other => panic!("unexpected action {:?}", other),
    }
}

#[test]
fn parks_without_units_are_left_out() {
    let day = ymd(2022, 9, 15);
    let (pipeline, _) = after_directory(vec![park("A", 1), park("B", 2), park("C", 3)]);
    let (pipeline, action) = pipeline.step(Event::Place(Some(place(vec![]))));
    assert_eq!(resolve("2"), action);
    let (pipeline, action) = pipeline.step(Event::Place(Some(place(vec![4]))));
    assert_eq!(fetch("4"), action);
    let (pipeline, action) =
        pipeline.step(Event::Grid(Some(grid(vec![unit(1, "Drive-in", "D", vec![day])]))));
    assert_eq!(resolve("3"), action);
    let (pipeline, action) = pipeline.step(Event::Place(Some(place(vec![6]))));
    assert_eq!(fetch("6"), action);
    let (_, action) = pipeline.step(Event::Grid(Some(grid(vec![]))));
    assert_eq!(Action::Finish { snapshot: Vec::new(), store: true }, action);
}

#[test]
fn a_directory_without_parks_ends_the_run() {
    let (pipeline, action) = after_directory(vec![entry("Duluth", 1, Some(EntityType::City))]);
    assert_eq!(Action::Finish { snapshot: Vec::new(), store: true }, action);
    assert!(pipeline.has_ended());
}

#[test]
fn a_run_without_a_directory_fails() {
    let (pipeline, _) = Pipeline::backpacking();
    let (pipeline, _) = pipeline.step(Event::Cache(Cached::Missing));
    let (pipeline, action) = pipeline.step(Event::Directory(None));
    assert_eq!(Action::Fail(Failure::NoDirectory), action);
    assert_eq!(Stage::Failed, pipeline.stage());
    assert!(pipeline.has_ended());
    let (_, action) = pipeline.step(Event::Directory(Some(vec![park("A", 1)])));
    assert_eq!(Action::Halt, action);
}

#[test]
fn a_cached_snapshot_is_shown_as_it_is() {
    let cached = vec![ParsedPark {
        name: "Cached".to_string(),
        latitude: degrees(1.5),
        longitude: degrees(-2.5),
        units: Vec::new(),
    }];
    let (pipeline, action) = Pipeline::backpacking();
    assert_eq!(Action::ReadCache, action);
    assert_eq!(Stage::Cache, pipeline.stage());
    let (pipeline, action) = pipeline.step(Event::Cache(Cached::Snapshot(cached.clone())));
    assert_eq!(Action::Finish { snapshot: cached, store: false }, action);
    assert!(pipeline.has_ended());
    let (_, action) = pipeline.step(Event::Directory(Some(vec![park("A", 1)])));
    assert_eq!(Action::Halt, action);
}

#[test]
fn a_corrupt_cache_fails_the_run() {
    let (pipeline, _) = Pipeline::backpacking();
    let (pipeline, action) = pipeline.step(Event::Cache(Cached::Corrupt));
    assert_eq!(Action::Fail(Failure::CorruptCache), action);
    assert_eq!(Stage::Failed, pipeline.stage());
}

#[test]
fn an_event_out_of_turn_counts_as_no_result() {
    let (pipeline, _) = Pipeline::backpacking();
    let (pipeline, action) = pipeline.step(Event::Place(None));
    assert_eq!(Action::FetchDirectory, action);
    let (pipeline, action) = pipeline.step(Event::Cache(Cached::Missing));
    assert_eq!(Action::Fail(Failure::NoDirectory), action);
    assert!(pipeline.has_ended());

    let (pipeline, _) = after_directory(vec![park("A", 1), park("B", 2)]);
    let (pipeline, action) = pipeline.step(Event::Grid(Some(grid(vec![]))));
    assert_eq!(resolve("2"), action);
    let (pipeline, action) = pipeline.step(Event::Place(Some(place(vec![3, 4]))));
    assert_eq!(fetch("3"), action);
    let (_, action) = pipeline.step(Event::Place(Some(place(vec![9]))));
    assert_eq!(fetch("4"), action);
}

#[test]
fn a_run_may_look_for_another_keyword() {
    let day = ymd(2022, 9, 15);
    let (pipeline, _) = Pipeline::start("Cart", 250);
    let (pipeline, _) = pipeline.step(Event::Cache(Cached::Missing));
    let (pipeline, action) = pipeline.step(Event::Directory(Some(vec![park("A", 4_294_967_295)])));
    assert_eq!(
        Action::ResolvePlace { place_id: "4294967295".to_string(), delay_ms: 250 },
        action
    );
    let (pipeline, action) = pipeline.step(Event::Place(Some(place(vec![i32::MIN]))));
    assert_eq!(
        Action::FetchGrid { facility_id: "-2147483648".to_string(), delay_ms: 250 },
        action
    );
    let (_, action) = pipeline.step(Event::Grid(Some(grid(vec![
        unit(1, "Backpack 1", "B", vec![day]),
        unit(2, "cart-in 1", "C", vec![day]),
    ]))));
    match action {
        Action::Finish { snapshot, .. } => {
            assert_eq!(1, snapshot[0].units.len());
            assert_eq!("C", snapshot[0].units[0].short_name);
        }
        other => panic!("unexpected action {:?}", other),
    }
}

#[test]
fn failures_say_what_went_wrong() {
    assert_eq!("the cached snapshot cannot be read", Failure::CorruptCache.message());
    assert_eq!("the directory of parks cannot be had", Failure::NoDirectory.message());
}
