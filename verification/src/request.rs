//! The bodies of the two searches that are sent to the service: the
//! search of a place for its facilities, and the search of a facility for
//! the grid of its units.
//!
//! The filters of both are fixed: unit category 25, sleeping unit 31, no
//! ADA filter, no minimum vehicle length.

use crate::date::{civil_day, civil_month, civil_year, Date};
use crate::model::Coordinate;
use crate::text::{decimal, decimal_string, push_decimal, signed_decimal};
use vstd::prelude::*;
use vstd::string::*;

verus! {

/// The search of a place for its facilities.
#[derive(Clone, Debug, PartialEq, Eq)]
pub struct PlaceSearch {
    pub place_id: String,
    pub latitude: Coordinate,
    pub longitude: Coordinate,
    pub highlighted_place_id: i32,
    pub start_date: String,
    pub nights: String,
    pub count_nearby: bool,
    pub nearby_limit: i32,
    pub nearby_only_available: bool,
    pub nearby_count_limit: i32,
    pub sort: String,
    pub customer_id: String,
    pub refresh_favourites: bool,
    pub is_ada: bool,
    pub unit_category_id: String,
    pub sleeping_unit_id: String,
    pub min_vehicle_length: i32,
    pub unit_types_group_ids: Vec<String>,
    pub highlights: Vec<String>,
    pub amenity_ids: Vec<String>,
}

impl PlaceSearch {
    /// The search of the place with the given identifier.
    pub fn for_place(place_id: &str) -> (r: PlaceSearch)
        ensures
            r.place_id@ == place_id@,
            r.latitude.bits == 0,
            r.longitude.bits == 0,
            r.highlighted_place_id == 0,
            r.start_date@ == "09-15-2022"@,
            r.nights@ == "1"@,
            r.count_nearby,
            r.nearby_limit == 100,
            !r.nearby_only_available,
            r.nearby_count_limit == 10,
            r.sort@ == "Distance"@,
            r.customer_id@ == "0"@,
            r.refresh_favourites,
            !r.is_ada,
            r.unit_category_id@ == "25"@,
            r.sleeping_unit_id@ == "31"@,
            r.min_vehicle_length == 0,
            r.unit_types_group_ids@.len() == 0,
            r.highlights@.len() == 0,
            r.amenity_ids@.len() == 0,
    {
        PlaceSearch {
            place_id: String::from_str(place_id),
            latitude: Coordinate { bits: 0 },
            longitude: Coordinate { bits: 0 },
            highlighted_place_id: 0,
            start_date: String::from_str("09-15-2022"),
            nights: String::from_str("1"),
            count_nearby: true,
            nearby_limit: 100,
            nearby_only_available: false,
            nearby_count_limit: 10,
            sort: String::from_str("Distance"),
            customer_id: String::from_str("0"),
            refresh_favourites: true,
            is_ada: false,
            unit_category_id: String::from_str("25"),
            sleeping_unit_id: String::from_str("31"),
            min_vehicle_length: 0,
            unit_types_group_ids: Vec::new(),
            highlights: Vec::new(),
            amenity_ids: Vec::new(),
        }
    }
}

/// The search of a facility for the grid of its units.
#[derive(Clone, Debug, PartialEq, Eq)]
pub struct Request {
    pub facility_id: String,
    pub unit_type_id: i32,
    pub start_date: String,
    pub in_season_only: bool,
    pub web_only: bool,
    pub is_ada: bool,
    pub sleeping_unit_id: String,
    pub unit_types_group_ids: Vec<String>,
    pub unit_category_id: String,
    /// Month, day and year, parted by slashes.
    pub min_date: String,
    /// Month, day and year, parted by slashes.
    pub max_date: String,
    pub min_vehicle_length: u32,
}

/// A day as a grid search writes its start: month, day and year in
/// decimal, without padding, parted by hyphens.
pub open spec fn start_date_text(days: int) -> Seq<char> {
    decimal(civil_month(days) as nat) + seq!['-'] + decimal(civil_day(days) as nat) + seq!['-']
        + signed_decimal(civil_year(days))
}

/// `date` as a grid search writes its start.
pub fn start_date_of(date: Date) -> (s: String)
    ensures
        s@ == start_date_text(date@),
{
    proof {
        reveal_strlit("-");
    }
    let mut s = String::new();
    push_decimal(&mut s, date.month() as u64);
    s.append("-");
    push_decimal(&mut s, date.day() as u64);
    s.append("-");
    let year = decimal_string(date.year() as i64);
    s.append(year.as_str());
    assert(s@ =~= start_date_text(date@));
    s
}

impl Request {
    /// The search of the facility with the given identifier, as it is
    /// sent on the day `today`.
    pub fn for_facility(facility_id: &str, today: Date) -> (r: Request)
        ensures
            r.facility_id@ == facility_id@,
            r.unit_type_id == 0,
            r.start_date@ == start_date_text(today@),
            r.in_season_only,
            r.web_only,
            !r.is_ada,
            r.sleeping_unit_id@ == "31"@,
            r.unit_types_group_ids@.len() == 0,
            r.unit_category_id@ == "25"@,
            r.min_date@ == "9/13/2022"@,
            r.max_date@ == "1/11/2023"@,
            r.min_vehicle_length == 0,
    {
        Request {
            facility_id: String::from_str(facility_id),
            unit_type_id: 0,
            start_date: start_date_of(today),
            in_season_only: true,
            web_only: true,
            is_ada: false,
            sleeping_unit_id: String::from_str("31"),
            unit_types_group_ids: Vec::new(),
            unit_category_id: String::from_str("25"),
            min_date: String::from_str("9/13/2022"),
            max_date: String::from_str("1/11/2023"),
            min_vehicle_length: 0,
        }
    }

    /// The search by which the grid endpoint is tried out: facility 788
    /// from September 20, 2022, for the unit types of group 25.
    pub fn sample() -> (r: Request)
        ensures
            r.facility_id@ == "788"@,
            r.unit_type_id == 0,
            r.start_date@ == "9-20-2022"@,
            r.in_season_only,
            r.web_only,
            !r.is_ada,
            r.sleeping_unit_id@ == "31"@,
            r.unit_types_group_ids@.len() == 1,
            r.unit_types_group_ids@[0]@ == "25"@,
            r.unit_category_id@ == "25"@,
            r.min_date@ == "9/13/2022"@,
            r.max_date@ == "1/11/2023"@,
            r.min_vehicle_length == 0,
    {
        let mut groups: Vec<String> = Vec::new();
        groups.push(String::from_str("25"));
        Request {
            facility_id: String::from_str("788"),
            unit_type_id: 0,
            start_date: String::from_str("9-20-2022"),
            in_season_only: true,
            web_only: true,
            is_ada: false,
            sleeping_unit_id: String::from_str("31"),
            unit_types_group_ids: groups,
            unit_category_id: String::from_str("25"),
            min_date: String::from_str("9/13/2022"),
            max_date: String::from_str("1/11/2023"),
            min_vehicle_length: 0,
        }
    }
}

} // verus!
