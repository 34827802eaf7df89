//! The places that the upstream geocoder returns, and their display names.

use vstd::prelude::*;
use vstd::string::StringExecFns;
use crate::text::{decimal, decimal_chars, string_of};

verus! {

/// A point, as the upstream service writes its decimal coordinates.
pub struct Geographic {
    pub latitude: String,
    pub longitude: String,
}

pub struct Address {
    pub street_number: u64,
    pub street_name: String,
    pub centre: Geographic,
}

pub struct Intersection {
    pub street_name: String,
    pub cross_street_name: String,
    pub centre: Geographic,
}

pub struct Monument {
    pub name: String,
    pub address: Address,
}

/// One record of a geocoding answer.
pub enum Location {
    Address(Address),
    Intersection(Intersection),
    Monument(Monument),
}

/// A place with a name for riders and the coordinates to search around.
pub struct ResolvedLocation {
    pub display_name: String,
    pub latitude: String,
    pub longitude: String,
}

#[derive(Debug, PartialEq, Eq, Structural)]
pub enum LocationError {
    /// The geocoder knew no place by that text.
    NotFound,
}

/// `{number} {street}`.
pub open spec fn address_name(a: Address) -> Seq<char> {
    decimal(a.street_number as nat) + " "@ + a.street_name@
}

/// The name that a rider is shown for a place.
pub open spec fn display_name(l: Location) -> Seq<char> {
    match l {
        Location::Address(a) => address_name(a),
        Location::Intersection(i) => i.street_name@ + "@"@ + i.cross_street_name@,
        Location::Monument(m) => m.name@ + " ("@ + address_name(m.address) + ")"@,
    }
}

/// The coordinates of a place; a monument has those of its address.
pub open spec fn centre_of(l: Location) -> Geographic {
    match l {
        Location::Address(a) => a.centre,
        Location::Intersection(i) => i.centre,
        Location::Monument(m) => m.address.centre,
    }
}

fn address_text(a: &Address) -> (r: String)
    ensures
        r@ == address_name(*a),
{
    let mut r = string_of(decimal_chars(a.street_number).as_slice());
    r.append(" ");
    r.append(a.street_name.as_str());
    r
}

/// The display name and coordinates of one place.
pub fn resolve(l: &Location) -> (r: ResolvedLocation)
    ensures
        r.display_name@ == display_name(*l),
        r.latitude@ == centre_of(*l).latitude@,
        r.longitude@ == centre_of(*l).longitude@,
{
    match l {
        Location::Address(a) => ResolvedLocation {
            display_name: address_text(a),
            latitude: a.centre.latitude.clone(),
            longitude: a.centre.longitude.clone(),
        },
        Location::Intersection(i) => {
            let mut name = i.street_name.clone();
            name.append("@");
            name.append(i.cross_street_name.as_str());
            ResolvedLocation {
                display_name: name,
                latitude: i.centre.latitude.clone(),
                longitude: i.centre.longitude.clone(),
            }
        },
        Location::Monument(m) => {
            let mut name = m.name.clone();
            name.append(" (");
            name.append(address_text(&m.address).as_str());
            name.append(")");
            ResolvedLocation {
                display_name: name,
                latitude: m.address.centre.latitude.clone(),
                longitude: m.address.centre.longitude.clone(),
            }
        },
    }
}

/// The place that a geocoding answer names: its first record, or `NotFound` when it
/// has none.
pub fn extract_location_details(locations: &Vec<Location>) -> (r: Result<
    ResolvedLocation,
    LocationError,
>)
    ensures
        locations@.len() == 0 <==> r == Err::<ResolvedLocation, LocationError>(
            LocationError::NotFound,
        ),
        r is Ok ==> r->Ok_0.display_name@ == display_name(locations@[0]) && r->Ok_0.latitude@
            == centre_of(locations@[0]).latitude@ && r->Ok_0.longitude@ == centre_of(
            locations@[0],
        ).longitude@,
{
    if locations.len() == 0 {
        Err(LocationError::NotFound)
    } else {
        Ok(resolve(&locations[0]))
    }
}

} // verus!
