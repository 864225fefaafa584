use campsites::date::Date;
use campsites::model::{Coordinate, ParsedPark, ParsedUnit, Slice};
use campsites::render::{arrange, arrange_units, dates_of, Calendar, Unshowable};
use campsites::request::{start_date_of, PlaceSearch, Request};

fn ymd(year: i32, month: u32, day: u32) -> Date {
    Date::from_ymd(year, month, day).unwrap()
}

fn unit(short_name: &str, dates: Vec<Date>) -> ParsedUnit {
    ParsedUnit {
        name: format!("Backpack {}", short_name),
        short_name: short_name.to_string(),
        slices: dates.into_iter().map(|date| Slice { date, is_free: true, min_stay: 1 }).collect(),
    }
}

fn park(name: &str, units: Vec<ParsedUnit>) -> ParsedPark {
    ParsedPark {
        name: name.to_string(),
        latitude: Coordinate { bits: 47.25f64.to_bits() },
        longitude: Coordinate { bits: (-91.5f64).to_bits() },
        units,
    }
}

fn short_names(units: &Vec<ParsedUnit>) -> Vec<&str> {
    units.iter().map(|u| u.short_name.as_str()).collect()
}

#[test]
fn units_are_shown_in_natural_order() {
    let units = vec![unit("Site 10", vec![]), unit("Site 2", vec![]), unit("Site 1", vec![])];
    let shown = arrange_units(units);
    assert_eq!(vec!["Site 1", "Site 2", "Site 10"], short_names(&shown));
}

#[test]
fn units_that_rank_alike_keep_their_order() {
    let mut first = unit("Site 3", vec![]);
    first.name = "first".to_string();
    let mut second = unit("Site 3", vec![]);
    second.name = "second".to_string();
    let shown = arrange_units(vec![unit("Site 20", vec![]), first, unit("Site 1", vec![]), second]);
    assert_eq!(vec!["Site 1", "Site 3", "Site 3", "Site 20"], short_names(&shown));
    assert_eq!("first", shown[1].name);
    assert_eq!("second", shown[2].name);
}

#[test]
fn units_with_a_long_number_stay_as_found() {
    let units = vec![unit("Site 9", vec![]), unit("Site 12345678901", vec![]), unit("Site 1", vec![])];
    let shown = arrange_units(units.clone());
    assert_eq!(units, shown);
}

#[test]
fn parks_are_shown_by_name_with_one_axis() {
    let parks = vec![
        park("Whitewater", vec![unit("B", vec![ymd(2020, 1, 3)])]),
        park("Afton", vec![unit("Site 10", vec![ymd(2020, 1, 1)]), unit("Site 9", vec![])]),
        park("afton", vec![]),
        park("Banning", vec![unit("2", vec![ymd(2020, 1, 3), ymd(2020, 1, 1)])]),
    ];
    let Calendar { parks, dates_to_show } = arrange(parks).unwrap();
    let names: Vec<&str> = parks.iter().map(|p| p.name.as_str()).collect();
    assert_eq!(vec!["Afton", "Banning", "Whitewater", "afton"], names);
    assert_eq!(vec!["Site 9", "Site 10"], short_names(&parks[0].units));
    assert_eq!(47.25, f64::from_bits(parks[0].latitude.bits));
    assert_eq!(-91.5, f64::from_bits(parks[0].longitude.bits));
    assert_eq!(vec![ymd(2020, 1, 1), ymd(2020, 1, 2), ymd(2020, 1, 3)], dates_to_show);
    assert_eq!(vec![ymd(2020, 1, 3), ymd(2020, 1, 1)], dates_of(&vec![parks[1].clone()]));
}

#[test]
fn parks_of_one_name_keep_their_order() {
    let parks = vec![
        park("Twin", vec![unit("second", vec![ymd(2022, 5, 5)])]),
        park("Alone", vec![]),
        park("Twin", vec![unit("first", vec![])]),
    ];
    let shown = arrange(parks).unwrap().parks;
    assert_eq!("Alone", shown[0].name);
    assert_eq!(vec!["second"], short_names(&shown[1].units));
    assert_eq!(vec!["first"], short_names(&shown[2].units));
}

#[test]
fn nothing_is_shown_without_a_date() {
    assert_eq!(Err(Unshowable::NoDates), arrange(Vec::new()));
    let parks = vec![park("A", vec![unit("1", vec![]), unit("2", vec![])]), park("B", vec![])];
    assert_eq!(Err(Unshowable::NoDates), arrange(parks));
    assert_eq!("No dates", Unshowable::NoDates.message());
}

#[test]
fn dates_come_park_after_park() {
    let parks = vec![
        park("B", vec![unit("1", vec![ymd(2022, 1, 2), ymd(2022, 1, 1)]), unit("2", vec![])]),
        park("A", vec![unit("3", vec![ymd(2021, 12, 31)])]),
    ];
    assert_eq!(vec![ymd(2022, 1, 2), ymd(2022, 1, 1), ymd(2021, 12, 31)], dates_of(&parks));
    assert_eq!(Vec::<Date>::new(), dates_of(&Vec::new()));
}

#[test]
fn search_of_a_place() {
    let search = PlaceSearch::for_place("123");
    let expected = PlaceSearch {
        place_id: "123".to_string(),
        latitude: Coordinate { bits: 0.0f64.to_bits() },
        longitude: Coordinate { bits: 0.0f64.to_bits() },
        highlighted_place_id: 0,
        start_date: "09-15-2022".to_string(),
        nights: "1".to_string(),
        count_nearby: true,
        nearby_limit: 100,
        nearby_only_available: false,
        nearby_count_limit: 10,
        sort: "Distance".to_string(),
        customer_id: "0".to_string(),
        refresh_favourites: true,
        is_ada: false,
        unit_category_id: "25".to_string(),
        sleeping_unit_id: "31".to_string(),
        min_vehicle_length: 0,
        unit_types_group_ids: vec![],
        highlights: vec![],
        amenity_ids: vec![],
    };
    assert_eq!(expected, search);
}

#[test]
fn search_of_a_grid() {
    let request = Request::for_facility("788", ymd(2022, 9, 5));
    let expected = Request {
        facility_id: "788".to_string(),
        unit_type_id: 0,
        start_date: "9-5-2022".to_string(),
        in_season_only: true,
        web_only: true,
        is_ada: false,
        sleeping_unit_id: "31".to_string(),
        unit_types_group_ids: vec![],
        unit_category_id: "25".to_string(),
        min_date: "9/13/2022".to_string(),
        max_date: "1/11/2023".to_string(),
        min_vehicle_length: 0,
    };
    assert_eq!(expected, request);
}

#[test]
fn start_of_a_grid_search_is_written_without_padding() {
    assert_eq!("12-31-2022", start_date_of(ymd(2022, 12, 31)));
    assert_eq!("1-1-2023", start_date_of(ymd(2023, 1, 1)));
    assert_eq!("10-28-2026", start_date_of(ymd(2026, 10, 28)));
    assert_eq!("3-14--308", start_date_of(ymd(-308, 3, 14)));
    assert_eq!("2-29-0", start_date_of(ymd(0, 2, 29)));
}

#[test]
fn sample_search_of_a_grid() {
    let expected = Request {
        facility_id: "788".to_string(),
        unit_type_id: 0,
        start_date: "9-20-2022".to_string(),
        in_season_only: true,
        web_only: true,
        is_ada: false,
        sleeping_unit_id: "31".to_string(),
        unit_types_group_ids: vec!["25".to_string()],
        unit_category_id: "25".to_string(),
        min_date: "9/13/2022".to_string(),
        max_date: "1/11/2023".to_string(),
        min_vehicle_length: 0,
    };
    assert_eq!(expected, Request::sample());
}
