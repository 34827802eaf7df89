use textabus::settings::{handle_settings_clock_request, toggle_clock, uses_twelve_hour, Number};

fn rider(twelve_hour: bool) -> Number {
    Number {
        number: "approved".to_string(),
        name: Some("an approved".to_string()),
        approved: true,
        admin: false,
        twelve_hour,
    }
}

#[test]
fn settings_clock_toggles_off_twelve_hour_field() {
    let mut number = Some(rider(true));
    let reply = handle_settings_clock_request(&mut number);
    assert_eq!(reply, "times will now be in 24h format");
    assert!(!number.unwrap().twelve_hour);
}

#[test]
fn settings_clock_toggles_on_twelve_hour_field() {
    let mut number = Some(rider(false));
    let reply = handle_settings_clock_request(&mut number);
    assert_eq!(reply, "times will now be in 12h format");
    assert!(number.unwrap().twelve_hour);
}

#[test]
fn settings_clock_does_not_work_with_raw_interface() {
    let mut number = None;
    assert_eq!(handle_settings_clock_request(&mut number), "Cannot change settings with this interface");
    assert!(number.is_none());
}

#[test]
fn toggling_twice_restores_the_setting() {
    for start in [true, false] {
        let mut number = rider(start);
        let first = toggle_clock(&mut number);
        let second = toggle_clock(&mut number);
        assert_eq!(number.twelve_hour, start);
        assert_ne!(first, second);
        let expected = if start { "times will now be in 12h format" } else { "times will now be in 24h format" };
        assert_eq!(second, expected);
        assert_eq!(number.number, "approved");
    }
}

#[test]
fn twelve_hour_clock_is_the_default() {
    assert!(uses_twelve_hour(&None));
    assert!(uses_twelve_hour(&Some(rider(true))));
    assert!(!uses_twelve_hour(&Some(rider(false))));
}

#[test]
fn riders_split_by_approval_keep_their_order() {
    let mut a = rider(true);
    a.number = "a".to_string();
    let mut b = rider(true);
    b.number = "b".to_string();
    b.approved = false;
    let mut c = rider(true);
    c.number = "c".to_string();
    let (approved, others) = textabus::settings::split_by_approval(vec![a, b, c]);
    let names: Vec<String> = approved.iter().map(|n| n.number.clone()).collect();
    assert_eq!(names, vec!["a", "c"]);
    assert_eq!(others.len(), 1);
    assert_eq!(others[0].number, "b");
}

#[test]
fn toggling_keeps_the_rest_of_the_record() {
    let mut number = Some(rider(true));
    handle_settings_clock_request(&mut number);
    let n = number.unwrap();
    assert_eq!(n.name, Some("an approved".to_string()));
    assert!(n.approved);
    assert!(!n.admin);
}
