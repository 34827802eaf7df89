use textabus::parse::Command;
use textabus::schedule::{is_success, no_schedule_reply, schedule_query};
use textabus::settings::Number;
use textabus::twilio::{command_for_body, incoming_plan, placeholder_reply, Incoming};

fn rider(approved: bool) -> Option<Number> {
    Some(Number {
        number: "approved".to_string(),
        name: None,
        approved,
        admin: false,
        twelve_hour: true,
    })
}

#[test]
fn unknown_numbers_are_welcomed() {
    assert!(matches!(incoming_plan(&None, &Some("hey".to_string())), Incoming::Welcome));
}

#[test]
fn unapproved_numbers_are_not_answered() {
    assert!(matches!(incoming_plan(&rider(false), &Some("hey".to_string())), Incoming::NotFound));
}

#[test]
fn approved_numbers_get_answers() {
    assert!(matches!(incoming_plan(&rider(true), &Some("wha".to_string())), Incoming::Answer));
    assert!(matches!(incoming_plan(&rider(true), &None), Incoming::Placeholder));
    assert_eq!(placeholder_reply(), "textabus");
}

#[test]
fn a_missing_body_reads_as_unknown() {
    assert!(matches!(command_for_body(&None), Command::Unknown(_)));
    assert!(matches!(command_for_body(&Some("10619".to_string())), Command::Times(_)));
}

#[test]
fn schedule_queries_and_missing_stops() {
    assert_eq!(schedule_query("10619"), "/v4/stops/10619/schedule.json?usage=short");
    assert_eq!(no_schedule_reply("99999"), "No schedule found for stop 99999, does it exist?");
    assert!(is_success(200));
    assert!(is_success(299));
    assert!(!is_success(404));
    assert!(!is_success(199));
}
