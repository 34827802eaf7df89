use textabus::routes::{route_number_text, sorted_routes, RouteNumber};

fn strings(v: &[&str]) -> Vec<String> {
    v.iter().map(|s| s.to_string()).collect()
}

#[test]
fn numeric_routes_come_first_by_value() {
    let sorted = sorted_routes(&strings(&["BLUE", "14", "60", "2"]));
    assert_eq!(sorted, strings(&["2", "14", "60", "BLUE"]));
}

#[test]
fn text_routes_sort_by_their_text() {
    let sorted = sorted_routes(&strings(&["S", "BLUE", "68", "D11", "9", "123456789012345678901234"]));
    assert_eq!(sorted, strings(&["9", "68", "123456789012345678901234", "BLUE", "D11", "S"]));
}

#[test]
fn equal_values_are_ordered_by_text() {
    let sorted = sorted_routes(&strings(&["7", "07", "007"]));
    assert_eq!(sorted, strings(&["007", "07", "7"]));
}

#[test]
fn empty_route_list_stays_empty() {
    assert_eq!(sorted_routes(&Vec::new()), Vec::<String>::new());
}

#[test]
fn route_numbers_become_text() {
    assert_eq!(route_number_text(&RouteNumber::Number(16)), "16");
    assert_eq!(route_number_text(&RouteNumber::Number(0)), "0");
    assert_eq!(route_number_text(&RouteNumber::Text("BLUE".to_string())), "BLUE");
}
