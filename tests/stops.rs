use textabus::location::{Address, Geographic, Location, Monument};
use textabus::parse::StopsCommand;
use textabus::routes::RouteNumber;
use textabus::stops::{StopSummary, StopsAction, StopsEvent, StopsLookup};

fn command(location: &str) -> StopsCommand {
    StopsCommand { location: location.to_string() }
}

fn union_station() -> Location {
    Location::Monument(Monument {
        name: "Via Rail Station (Union Station)".to_string(),
        address: Address {
            street_number: 123,
            street_name: "MainSt".to_string(),
            centre: Geographic { latitude: "49.88895".to_string(), longitude: "-97.13424".to_string() },
        },
    })
}

fn fetched(action: StopsAction) -> String {
    match action {
        StopsAction::Fetch(path) => path,
        _ => panic!("Expected a query"),
    }
}

fn replied(action: StopsAction) -> String {
    match action {
        StopsAction::Reply(text) => text,
        _ => panic!("Expected a reply"),
    }
}

fn stop(number: u64, name: &str) -> StopSummary {
    StopSummary { number, name: name.to_string() }
}

#[test]
fn stops_returns_stops_and_routes_near_a_location() {
    let (lookup, path) = StopsLookup::start(&command("Union Station"));
    assert_eq!(path, "/v4/locations:Union Station.json?usage=short");

    let (lookup, action) = lookup.advance(StopsEvent::Locations(vec![union_station()]));
    assert_eq!(fetched(action), "/v4/stops.json?lat=49.88895&lon=-97.13424&distance=500&usage=short");

    let stops = vec![
        stop(10625, "NB Main@Broadway (Union Station)"),
        stop(11111, "Nowhere"),
        stop(11010, "NB Fort@Broadway"),
    ];
    let (lookup, action) = lookup.advance(StopsEvent::Stops(stops));
    assert_eq!(fetched(action), "/v4/routes.json?stop=10625");

    let routes = vec![
        RouteNumber::Number(14),
        RouteNumber::Text("BLUE".to_string()),
        RouteNumber::Number(68),
        RouteNumber::Text("19".to_string()),
    ];
    let (lookup, action) = lookup.advance(StopsEvent::Routes(routes));
    assert_eq!(fetched(action), "/v4/routes.json?stop=11111");

    let (lookup, action) = lookup.advance(StopsEvent::Routes(Vec::new()));
    assert_eq!(fetched(action), "/v4/routes.json?stop=11010");

    let (lookup, action) = lookup.advance(StopsEvent::Routes(vec![RouteNumber::Number(34)]));
    assert_eq!(
        replied(action),
        "Stops near Via Rail Station (Union Station) (123 MainSt)\n\
         \n10625 NB Main@Broadway (Union Station) 14 19 68 BLUE\n\
         \n11010 NB Fort@Broadway 34\n"
    );
    assert!(matches!(lookup, StopsLookup::Done));
}

#[test]
fn stops_handles_an_empty_locations_response() {
    let (lookup, path) = StopsLookup::start(&command("acab"));
    assert_eq!(path, "/v4/locations:acab.json?usage=short");
    let (lookup, action) = lookup.advance(StopsEvent::Locations(Vec::new()));
    assert_eq!(replied(action), "No locations found for acab");
    assert!(matches!(lookup, StopsLookup::Done));
}

#[test]
fn stops_handles_an_empty_stops_response() {
    let downs = Location::Monument(Monument {
        name: "Assiniboine Downs".to_string(),
        address: Address {
            street_number: 3975,
            street_name: "PortageAve".to_string(),
            centre: Geographic { latitude: "49.8".to_string(), longitude: "-97.3".to_string() },
        },
    });
    let (lookup, _) = StopsLookup::start(&command("assiniboia downs"));
    let (lookup, _) = lookup.advance(StopsEvent::Locations(vec![downs]));
    let (_, action) = lookup.advance(StopsEvent::Stops(Vec::new()));
    assert_eq!(replied(action), "No stops found within 500m of Assiniboine Downs (3975 PortageAve)");
}

#[test]
fn at_most_ten_stops_are_listed() {
    let (lookup, _) = StopsLookup::start(&command("here"));
    let (mut lookup, _) = lookup.advance(StopsEvent::Locations(vec![union_station()]));
    let stops: Vec<StopSummary> = (0..12u64).map(|i| stop(10000 + i, "S")).collect();
    let mut queries = 0;
    let mut event = StopsEvent::Stops(stops);
    loop {
        let (next, action) = lookup.advance(event);
        lookup = next;
        match action {
            StopsAction::Fetch(_) => queries += 1,
            StopsAction::Reply(text) => {
                assert_eq!(text.matches("\n1000").count() + text.matches("\n1001").count(), 10);
                break;
            }
            StopsAction::OutOfOrder => panic!("Unexpected answer"),
        }
        event = StopsEvent::Routes(vec![RouteNumber::Number(1)]);
    }
    assert_eq!(queries, 10);
}

#[test]
fn an_answer_out_of_order_changes_nothing() {
    let (lookup, _) = StopsLookup::start(&command("here"));
    let (lookup, action) = lookup.advance(StopsEvent::Routes(Vec::new()));
    assert!(matches!(action, StopsAction::OutOfOrder));
    let (_, action) = lookup.advance(StopsEvent::Locations(Vec::new()));
    assert_eq!(replied(action), "No locations found for here");
}
