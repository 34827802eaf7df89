//! Finding the stops near a place, and the routes that serve each of them.
//!
//! The search takes several upstream queries, one after another. `StopsLookup` holds
//! where a search stands: each answer moves it on and says what to ask next or what
//! to reply.

use vstd::prelude::*;
use vstd::string::StringExecFns;
use crate::location::{centre_of, display_name, resolve, Location, ResolvedLocation};
use crate::parse::StopsCommand;
use crate::routes::{route_number_text, route_order, route_text, sorted_routes, RouteNumber};
use crate::text::{decimal, decimal_chars, string_of};

verus! {

/// How far from a place to look for stops, in metres.
pub const STOPS_DISTANCE: u64 = 500;

/// The most stops that one reply lists.
pub const MAXIMUM_STOPS_TO_RETURN: usize = 10;

/// A stop in a listing of nearby stops.
pub struct StopSummary {
    pub number: u64,
    pub name: String,
}

/// Words joined by single spaces.
pub open spec fn joined(ws: Seq<Seq<char>>) -> Seq<char>
    decreases ws.len(),
{
    if ws.len() == 0 {
        Seq::empty()
    } else if ws.len() == 1 {
        ws[0]
    } else {
        joined(ws.drop_last()) + " "@ + ws.last()
    }
}

/// A stop's route numbers as text, in listing order.
pub open spec fn listed_routes(routes: Seq<RouteNumber>) -> Seq<Seq<char>> {
    routes.map_values(|r: RouteNumber| route_text(r)).sort_by(route_order())
}

/// The paragraph for one stop: its number, name and routes.
pub open spec fn stop_line(stop: StopSummary, routes: Seq<RouteNumber>) -> Seq<char> {
    "\n"@ + decimal(stop.number as nat) + " "@ + stop.name@ + " "@ + joined(listed_routes(routes))
        + "\n"@
}

pub open spec fn locations_query(location: Seq<char>) -> Seq<char> {
    "/v4/locations:"@ + location + ".json?usage=short"@
}

pub open spec fn stops_query(latitude: Seq<char>, longitude: Seq<char>) -> Seq<char> {
    "/v4/stops.json?lat="@ + latitude + "&lon="@ + longitude + "&distance="@ + decimal(
        STOPS_DISTANCE as nat,
    ) + "&usage=short"@
}

pub open spec fn routes_query(stop_number: u64) -> Seq<char> {
    "/v4/routes.json?stop="@ + decimal(stop_number as nat)
}

pub open spec fn no_locations_text(location: Seq<char>) -> Seq<char> {
    "No locations found for "@ + location
}

pub open spec fn no_stops_text(place: Seq<char>) -> Seq<char> {
    "No stops found within "@ + decimal(STOPS_DISTANCE as nat) + "m of "@ + place
}

pub open spec fn stops_header(place: Seq<char>) -> Seq<char> {
    "Stops near "@ + place + "\n"@
}

/// Where a search for nearby stops stands.
pub enum StopsLookup {
    /// Waiting for the geocoder's answer for the rider's text.
    Locating { location: String },
    /// Waiting for the stops around the place that was found.
    Searching { place: ResolvedLocation },
    /// Waiting for the routes of `stops[next]`; `reply` holds the stops before it.
    Listing { stops: Vec<StopSummary>, next: usize, reply: String },
    /// The reply has been given.
    Done,
}

/// An upstream answer, already decoded.
pub enum StopsEvent {
    Locations(Vec<Location>),
    Stops(Vec<StopSummary>),
    Routes(Vec<RouteNumber>),
}

/// What to do next.
pub enum StopsAction {
    /// Query the upstream service at this path.
    Fetch(String),
    /// Send this reply; the search is over.
    Reply(String),
    /// The answer was not the one the search waits for; nothing changed.
    OutOfOrder,
}

impl StopsLookup {
    pub open spec fn wf(&self) -> bool {
        match self {
            StopsLookup::Listing { stops, next, reply } => 0 < stops@.len()
                <= MAXIMUM_STOPS_TO_RETURN && next < stops@.len(),
            _ => true,
        }
    }

    /// Starts a search for the place in `command`; the first query is the geocoder's.
    pub fn start(command: &StopsCommand) -> (r: (StopsLookup, String))
        ensures
            r.0 is Locating,
            r.0->Locating_location@ == command.location@,
            r.1@ == locations_query(command.location@),
    {
        let mut query = String::from_str("/v4/locations:");
        query.append(command.location.as_str());
        query.append(".json?usage=short");
        (StopsLookup::Locating { location: command.location.clone() }, query)
    }

    /// Moves the search on by one answer.
    pub fn advance(self, event: StopsEvent) -> (r: (StopsLookup, StopsAction))
        requires
            self.wf(),
        ensures
            r.0.wf(),
            advances(self, event, r.0, r.1),
    {
        match self {
            StopsLookup::Locating { location } => match event {
                StopsEvent::Locations(locations) => {
                    if locations.len() == 0 {
                        let mut text = String::from_str("No locations found for ");
                        text.append(location.as_str());
                        (StopsLookup::Done, StopsAction::Reply(text))
                    } else {
                        let place = resolve(&locations[0]);
                        let mut query = String::from_str("/v4/stops.json?lat=");
                        query.append(place.latitude.as_str());
                        query.append("&lon=");
                        query.append(place.longitude.as_str());
                        query.append("&distance=");
                        query.append(string_of(decimal_chars(STOPS_DISTANCE).as_slice()).as_str());
                        query.append("&usage=short");
                        (StopsLookup::Searching { place }, StopsAction::Fetch(query))
                    }
                },
                _ => (
                    StopsLookup::Locating { location },
                    StopsAction::OutOfOrder,
                ),
            },
            StopsLookup::Searching { place } => match event {
                StopsEvent::Stops(stops) => {
                    if stops.len() == 0 {
                        let mut text = String::from_str("No stops found within ");
                        text.append(string_of(decimal_chars(STOPS_DISTANCE).as_slice()).as_str());
                        text.append("m of ");
                        text.append(place.display_name.as_str());
                        (StopsLookup::Done, StopsAction::Reply(text))
                    } else {
                        let mut stops = stops;
                        assert(stops@.subrange(0, stops@.len() as int) == stops@);
                        stops.truncate(MAXIMUM_STOPS_TO_RETURN);
                        let query = routes_query_text(stops[0].number);
                        let mut reply = String::from_str("Stops near ");
                        reply.append(place.display_name.as_str());
                        reply.append("\n");
                        (StopsLookup::Listing { stops, next: 0, reply }, StopsAction::Fetch(query))
                    }
                },
                _ => (StopsLookup::Searching { place }, StopsAction::OutOfOrder),
            },
            StopsLookup::Listing { stops, next, reply } => match event {
                StopsEvent::Routes(routes) => {
                    let mut reply = reply;
                    if routes.len() > 0 {
                        let line = stop_line_text(&stops[next], &routes);
                        reply.append(line.as_str());
                    }
                    if next + 1 < stops.len() {
                        let query = routes_query_text(stops[next + 1].number);
                        (
                            StopsLookup::Listing { stops, next: next + 1, reply },
                            StopsAction::Fetch(query),
                        )
                    } else {
                        (StopsLookup::Done, StopsAction::Reply(reply))
                    }
                },
                _ => (StopsLookup::Listing { stops, next, reply }, StopsAction::OutOfOrder),
            },
            StopsLookup::Done => (StopsLookup::Done, StopsAction::OutOfOrder),
        }
    }
}

/// How one answer moves a search from `s` to `t`, with action `a`.
pub open spec fn advances(s: StopsLookup, e: StopsEvent, t: StopsLookup, a: StopsAction) -> bool {
    match s {
        StopsLookup::Locating { location } => match e {
            StopsEvent::Locations(locations) => if locations@.len() == 0 {
                t is Done && a is Reply && a->Reply_0@ == no_locations_text(location@)
            } else {
                let l = locations@[0];
                &&& t is Searching
                &&& t->Searching_place.display_name@ == display_name(l)
                &&& t->Searching_place.latitude@ == centre_of(l).latitude@
                &&& t->Searching_place.longitude@ == centre_of(l).longitude@
                &&& a is Fetch
                &&& a->Fetch_0@ == stops_query(centre_of(l).latitude@, centre_of(l).longitude@)
            },
            _ => t == s && a is OutOfOrder,
        },
        StopsLookup::Searching { place } => match e {
            StopsEvent::Stops(stops) => if stops@.len() == 0 {
                t is Done && a is Reply && a->Reply_0@ == no_stops_text(place.display_name@)
            } else {
                let kept = if stops@.len() <= MAXIMUM_STOPS_TO_RETURN {
                    stops@
                } else {
                    stops@.subrange(0, MAXIMUM_STOPS_TO_RETURN as int)
                };
                &&& t is Listing
                &&& t->Listing_stops@ == kept
                &&& t->Listing_next == 0
                &&& t->Listing_reply@ == stops_header(place.display_name@)
                &&& a is Fetch
                &&& a->Fetch_0@ == routes_query(kept[0].number)
            },
            _ => t == s && a is OutOfOrder,
        },
        StopsLookup::Listing { stops, next, reply } => match e {
            StopsEvent::Routes(routes) => {
                let text = if routes@.len() == 0 {
                    reply@
                } else {
                    reply@ + stop_line(stops@[next as int], routes@)
                };
                if next + 1 < stops@.len() {
                    &&& t is Listing
                    &&& t->Listing_stops == stops
                    &&& t->Listing_next == next + 1
                    &&& t->Listing_reply@ == text
                    &&& a is Fetch
                    &&& a->Fetch_0@ == routes_query(stops@[next + 1].number)
                } else {
                    t is Done && a is Reply && a->Reply_0@ == text
                }
            },
            _ => t == s && a is OutOfOrder,
        },
        StopsLookup::Done => t is Done && a is OutOfOrder,
    }
}

fn routes_query_text(stop_number: u64) -> (r: String)
    ensures
        r@ == routes_query(stop_number),
{
    let mut query = String::from_str("/v4/routes.json?stop=");
    query.append(string_of(decimal_chars(stop_number).as_slice()).as_str());
    query
}

/// Words joined by single spaces.
fn join_words(ws: &Vec<String>) -> (r: String)
    ensures
        r@ == joined(ws@.map_values(|s: String| s@)),
{
    let mut out = String::new();
    let mut i: usize = 0;
    while i < ws.len()
        invariant
            i <= ws@.len(),
            out@ == joined(ws@.subrange(0, i as int).map_values(|s: String| s@)),
        decreases ws@.len() - i,
    {
        let ghost before = ws@.subrange(0, i as int).map_values(|s: String| s@);
        let ghost after = ws@.subrange(0, i + 1).map_values(|s: String| s@);
        assert(after.drop_last() == before);
        if i > 0 {
            out.append(" ");
        } else {
            assert(before.len() == 0);
        }
        out.append(ws[i].as_str());
        i += 1;
    }
    assert(ws@.subrange(0, ws@.len() as int) == ws@);
    out
}

/// The paragraph for one stop.
fn stop_line_text(stop: &StopSummary, routes: &Vec<RouteNumber>) -> (r: String)
    ensures
        r@ == stop_line(*stop, routes@),
{
    let mut texts: Vec<String> = Vec::new();
    let mut i: usize = 0;
    while i < routes.len()
        invariant
            i <= routes@.len(),
            texts@.map_values(|s: String| s@) == routes@.subrange(0, i as int).map_values(
                |r: RouteNumber| route_text(r),
            ),
        decreases routes@.len() - i,
    {
        let t = route_number_text(&routes[i]);
        let ghost before = texts@;
        texts.push(t);
        assert(texts@.map_values(|s: String| s@) =~= before.map_values(|s: String| s@).push(t@));
        assert(routes@.subrange(0, i + 1).map_values(|r: RouteNumber| route_text(r))
            =~= routes@.subrange(0, i as int).map_values(|r: RouteNumber| route_text(r)).push(
            route_text(routes@[i as int]),
        ));
        i += 1;
    }
    assert(routes@.subrange(0, routes@.len() as int) == routes@);
    let sorted = sorted_routes(&texts);
    let mut line = String::from_str("\n");
    line.append(string_of(decimal_chars(stop.number).as_slice()).as_str());
    line.append(" ");
    line.append(stop.name.as_str());
    line.append(" ");
    line.append(join_words(&sorted).as_str());
    line.append("\n");
    line
}

} // verus!
