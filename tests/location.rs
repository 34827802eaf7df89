use textabus::location::{
    extract_location_details, Address, Geographic, Intersection, Location, LocationError,
    Monument,
};

fn centre(latitude: &str, longitude: &str) -> Geographic {
    Geographic { latitude: latitude.to_string(), longitude: longitude.to_string() }
}

#[test]
fn test_extract_monument_details() {
    let locations = vec![Location::Monument(Monument {
        name: "Via Rail Station (Union Station)".to_string(),
        address: Address {
            street_number: 123,
            street_name: "Main Street".to_string(),
            centre: centre("49.88895", "-97.13424"),
        },
    })];

    let result = extract_location_details(&locations);
    assert!(result.is_ok());

    let place = result.ok().unwrap();
    assert_eq!(place.display_name, "Via Rail Station (Union Station) (123 Main Street)");
    assert_eq!(place.latitude, "49.88895");
    assert_eq!(place.longitude, "-97.13424");
}

#[test]
fn test_extract_address_details() {
    let locations = vec![Location::Address(Address {
        street_number: 245,
        street_name: "SmithSt".to_string(),
        centre: centre("49.89218", "-97.14084"),
    })];

    let result = extract_location_details(&locations);
    assert!(result.is_ok());

    let place = result.ok().unwrap();
    assert_eq!(place.display_name, "245 SmithSt");
    assert_eq!(place.latitude, "49.89218");
    assert_eq!(place.longitude, "-97.14084");
}

#[test]
fn test_extract_intersection_details() {
    let locations = vec![Location::Intersection(Intersection {
        street_name: "PortageAve".to_string(),
        cross_street_name: "MainSt".to_string(),
        centre: centre("49.89553", "-97.13848"),
    })];

    let result = extract_location_details(&locations);
    assert!(result.is_ok());

    let place = result.ok().unwrap();
    assert_eq!(place.display_name, "PortageAve@MainSt");
    assert_eq!(place.latitude, "49.89553");
    assert_eq!(place.longitude, "-97.13848");
}

#[test]
fn only_the_first_location_counts() {
    let locations = vec![
        Location::Intersection(Intersection {
            street_name: "PortageAve".to_string(),
            cross_street_name: "MainSt".to_string(),
            centre: centre("1", "2"),
        }),
        Location::Address(Address {
            street_number: 7,
            street_name: "Other".to_string(),
            centre: centre("3", "4"),
        }),
    ];
    let place = extract_location_details(&locations).ok().unwrap();
    assert_eq!(place.display_name, "PortageAve@MainSt");
    assert_eq!(place.latitude, "1");
}

#[test]
fn no_locations_is_not_found() {
    let result = extract_location_details(&Vec::new());
    assert_eq!(result.err(), Some(LocationError::NotFound));
}
