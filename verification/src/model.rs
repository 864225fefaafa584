//! The data of the reservation service, and the reports made from it.
//!
//! The types that arrive from the service are held as they were read:
//! the library decides nothing about a park's size label or a facility's
//! description.  Mappings whose keys nothing reads (directory entries,
//! the facilities of a place, the units of a grid) are held as the
//! sequence of their values, in the order in which they were read.

use crate::date::{lemma_date_by_number, Date};
use vstd::prelude::*;

verus! {

/// The categories of unit that the service distinguishes.
#[derive(Clone, Copy, Debug, PartialEq, Eq, Structural)]
pub enum UnitType {
    Backpacking,
    BikeIn,
    CartIn,
}

impl UnitType {
    /// The identifier by which the service knows the category.
    pub open spec fn spec_id(self) -> int {
        match self {
            UnitType::Backpacking => 177,
            UnitType::BikeIn => 176,
            UnitType::CartIn => 165,
        }
    }

    /// The identifier by which the service knows the category.
    pub fn id(self) -> (r: i32)
        ensures
            r == self.spec_id(),
    {
        match self {
            UnitType::Backpacking => 177,
            UnitType::BikeIn => 176,
            UnitType::CartIn => 165,
        }
    }
}

/// What a directory entry stands for.
#[derive(Clone, Copy, Debug, PartialEq, Eq, Structural)]
pub enum EntityType {
    City,
    Park,
}

/// A latitude or longitude in degrees, held as the bit pattern of its
/// IEEE 754 double so that it passes through unchanged.
#[derive(Clone, Copy, Debug, PartialEq, Eq, Structural)]
pub struct Coordinate {
    pub bits: u64,
}

/// An entry of the directory: a park, or a city.
#[derive(Clone, Debug, PartialEq, Eq)]
pub struct StatePark {
    pub city_park_id: i32,
    pub enterprise_id: i32,
    pub entity_type: Option<EntityType>,
    pub is_active: bool,
    pub latitude: Coordinate,
    pub longitude: Coordinate,
    pub name: String,
    pub place_id: u32,
    /// A free-text label; its spelling varies in case.
    pub park_size: String,
}

/// The answer of the place endpoint.
#[derive(Clone, Debug, PartialEq, Eq)]
pub struct Place {
    pub selected_place: SelectedPlace,
}

/// The detail of one place, with its bookable facilities.
#[derive(Clone, Debug, PartialEq, Eq)]
pub struct SelectedPlace {
    pub name: String,
    pub description: String,
    pub latitude: Coordinate,
    pub longitude: Coordinate,
    pub available: bool,
    pub facilities: Vec<PlaceFacility>,
}

/// A bookable facility of a place.
#[derive(Clone, Debug, PartialEq, Eq)]
pub struct PlaceFacility {
    pub facility_id: i32,
    pub name: String,
    pub description: String,
    pub latitude: Coordinate,
    pub longitude: Coordinate,
    pub available: bool,
    pub in_season: bool,
}

/// The answer of the grid endpoint.
#[derive(Clone, Debug, PartialEq, Eq)]
pub struct GridFacility {
    pub facility: Facility,
}

/// The units of one facility.
#[derive(Clone, Debug, PartialEq, Eq)]
pub struct Facility {
    pub units: Vec<Unit>,
}

/// One date of a unit: whether it is free, and the shortest stay.
#[derive(Clone, Copy, Debug, PartialEq, Eq, Structural)]
pub struct Slice {
    pub date: Date,
    pub is_free: bool,
    pub min_stay: u32,
}

/// Whether no two of the slices share a date.
pub open spec fn distinct_dates(slices: Seq<Slice>) -> bool {
    forall|i: int, j: int|
        0 <= i < j < slices.len() ==> (#[trigger] slices[i]).date@ != (#[trigger] slices[j]).date@
}

/// Whether the slices stand in strictly ascending order of date.
pub open spec fn ascending_dates(slices: Seq<Slice>) -> bool {
    forall|i: int, j: int|
        0 <= i < j < slices.len() ==> (#[trigger] slices[i]).date@ < (#[trigger] slices[j]).date@
}

/// What a [`Unit`] holds.
pub struct UnitData {
    pub unit_id: i32,
    pub name: Seq<char>,
    pub short_name: Seq<char>,
    pub slices: Seq<Slice>,
}

/// A reservable unit of a facility, with one slice for each of its dates.
#[derive(Debug, PartialEq, Eq)]
pub struct Unit {
    unit_id: i32,
    name: String,
    short_name: String,
    slices: Vec<Slice>,
}

impl View for Unit {
    type V = UnitData;

    closed spec fn view(&self) -> UnitData {
        UnitData {
            unit_id: self.unit_id,
            name: self.name@,
            short_name: self.short_name@,
            slices: self.slices@,
        }
    }
}

impl Clone for Unit {
    fn clone(&self) -> (r: Self)
        ensures
            r@ == self@,
    {
        proof {
            use_type_invariant(self);
        }
        let mut slices: Vec<Slice> = Vec::new();
        let mut i: usize = 0;
        while i < self.slices.len()
            invariant
                i <= self.slices.len(),
                slices@ == self.slices@.subrange(0, i as int),
            decreases self.slices.len() - i,
        {
            slices.push(self.slices[i]);
            i = i + 1;
        }
        assert(slices@ == self.slices@);
        Unit {
            unit_id: self.unit_id,
            name: self.name.clone(),
            short_name: self.short_name.clone(),
            slices,
        }
    }
}

fn date_occurs(slices: &Vec<Slice>, upto: usize, date: Date) -> (r: bool)
    requires
        upto <= slices.len(),
    ensures
        r == exists|i: int| 0 <= i < upto && (#[trigger] slices@[i]).date@ == date@,
{
    let mut i: usize = 0;
    while i < upto
        invariant
            i <= upto <= slices.len(),
            forall|k: int| 0 <= k < i ==> (#[trigger] slices@[k]).date@ != date@,
        decreases upto - i,
    {
        if slices[i].date == date {
            return true;
        }
        proof {
            lemma_date_by_number(slices@[i as int].date, date);
        }
        i = i + 1;
    }
    false
}

/// Whether no two of the slices share a date.
pub fn has_distinct_dates(slices: &Vec<Slice>) -> (r: bool)
    ensures
        r == distinct_dates(slices@),
{
    let mut j: usize = 0;
    while j < slices.len()
        invariant
            j <= slices.len(),
            forall|a: int, b: int|
                0 <= a < b < j ==> (#[trigger] slices@[a]).date@ != (#[trigger] slices@[b]).date@,
        decreases slices.len() - j,
    {
        if date_occurs(slices, j, slices[j].date) {
            return false;
        }
        j = j + 1;
    }
    true
}

impl Unit {
    #[verifier::type_invariant]
    spec fn one_slice_per_date(self) -> bool {
        distinct_dates(self.slices@)
    }

    /// A unit with the given slices, unless two of them share a date.
    pub fn new(unit_id: i32, name: String, short_name: String, slices: Vec<Slice>) -> (r: Option<
        Unit,
    >)
        ensures
            r is Some <==> distinct_dates(slices@),
            r matches Some(unit) ==> unit@ == (UnitData {
                unit_id,
                name: name@,
                short_name: short_name@,
                slices: slices@,
            }),
    {
        if has_distinct_dates(&slices) {
            Some(Unit { unit_id, name, short_name, slices })
        } else {
            None
        }
    }

    /// The unit's numeric id.
    pub fn unit_id(&self) -> (r: i32)
        ensures
            r == self@.unit_id,
    {
        self.unit_id
    }

    /// The unit's display name.
    pub fn name(&self) -> (r: &String)
        ensures
            r@ == self@.name,
    {
        &self.name
    }

    /// The unit's short display name.
    pub fn short_name(&self) -> (r: &String)
        ensures
            r@ == self@.short_name,
    {
        &self.short_name
    }

    /// The unit's slices, in the order in which they were read; no two
    /// share a date.
    pub fn slices(&self) -> (r: &Vec<Slice>)
        ensures
            r@ == self@.slices,
            distinct_dates(r@),
    {
        proof {
            use_type_invariant(self);
        }
        &self.slices
    }
}

/// What a [`ParsedUnit`] holds: a unit's names and its slices.
pub struct UnitReport {
    pub name: Seq<char>,
    pub short_name: Seq<char>,
    pub slices: Seq<Slice>,
}

/// A unit as it is reported.
#[derive(Clone, Debug, PartialEq, Eq)]
pub struct ParsedUnit {
    pub name: String,
    pub short_name: String,
    pub slices: Vec<Slice>,
}

impl View for ParsedUnit {
    type V = UnitReport;

    open spec fn view(&self) -> UnitReport {
        UnitReport { name: self.name@, short_name: self.short_name@, slices: self.slices@ }
    }
}

/// What a [`ParsedPark`] holds: a park's name and place, and its units.
pub struct ParkReport {
    pub name: Seq<char>,
    pub latitude: Coordinate,
    pub longitude: Coordinate,
    pub units: Seq<UnitReport>,
}

/// A park as it is reported.
#[derive(Clone, Debug, PartialEq, Eq)]
pub struct ParsedPark {
    pub name: String,
    pub latitude: Coordinate,
    pub longitude: Coordinate,
    pub units: Vec<ParsedUnit>,
}

/// What each item of `items` holds, in order.
pub open spec fn views<T: View>(items: Seq<T>) -> Seq<T::V> {
    Seq::new(items.len(), |i: int| items[i]@)
}

impl View for ParsedPark {
    type V = ParkReport;

    open spec fn view(&self) -> ParkReport {
        ParkReport {
            name: self.name@,
            latitude: self.latitude,
            longitude: self.longitude,
            units: views(self.units@),
        }
    }
}

} // verus!
