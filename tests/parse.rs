use textabus::parse::{parse_command, parse_normalised_command, Command};

fn times(input: &str) -> (String, Vec<String>) {
    match parse_command(input) {
        Command::Times(t) => (t.stop_number, t.routes),
        _ => panic!("Expected TimesCommand"),
    }
}

fn stops(input: &str) -> String {
    match parse_command(input) {
        Command::Stops(s) => s.location,
        _ => panic!("Expected StopsCommand"),
    }
}

#[test]
fn test_parse_times_command() {
    let command = parse_command("10619 16 18 BLUE");
    match command {
        Command::Times(times_command) => {
            assert_eq!(times_command.stop_number, "10619");
            assert_eq!(times_command.routes, vec!["16", "18", "BLUE"]);
        }
        _ => panic!("Expected TimesCommand"),
    }

    let command_with_whitespace = parse_command(" 10064 ");
    match command_with_whitespace {
        Command::Times(times_command) => {
            assert_eq!(times_command.stop_number, "10064");
            assert_eq!(times_command.routes, Vec::<String>::new());
        }
        _ => panic!("Expected TimesCommand"),
    }

    let command_with_optional_prefix = parse_command("times 10064");
    match command_with_optional_prefix {
        Command::Times(times_command) => {
            assert_eq!(times_command.stop_number, "10064");
            assert_eq!(times_command.routes, Vec::<String>::new());
        }
        _ => panic!("Expected TimesCommand"),
    }
}

#[test]
fn test_parse_stops_command() {
    let command = parse_command("Stops 245 Smith");
    match command {
        Command::Stops(stops_command) => {
            assert_eq!(stops_command.location, "245 Smith");
        }
        _ => panic!("Expected StopsCommand"),
    }

    let command_with_line_breaks = parse_command("Stops\n245\nSmith");
    match command_with_line_breaks {
        Command::Stops(stops_command) => {
            assert_eq!(stops_command.location, "245 Smith");
        }
        _ => panic!("Expected StopsCommand"),
    }

    let command_with_extra_spaces = parse_command("stops  245   smith");
    match command_with_extra_spaces {
        Command::Stops(stops_command) => {
            assert_eq!(stops_command.location, "245 smith");
        }
        _ => panic!("Expected StopsCommand"),
    }
}

#[test]
fn test_parse_unknown_command() {
    let command = parse_command("unknown command");
    match command {
        Command::Unknown(_) => (),
        _ => panic!("Expected UnknownCommand"),
    }
}

#[test]
fn bare_and_prefixed_stop_numbers_ask_for_all_routes() {
    assert_eq!(times("12345"), ("12345".to_string(), vec![]));
    assert_eq!(times("times 12345"), ("12345".to_string(), vec![]));
    assert_eq!(times("TIMES\t12345"), ("12345".to_string(), vec![]));
}

#[test]
fn route_list_keeps_its_case_and_drops_extra_blanks() {
    let (stop, routes) = times("10619\t 16   blue\n");
    assert_eq!(stop, "10619");
    assert_eq!(routes, vec!["16", "blue"]);
}

#[test]
fn stop_numbers_need_exactly_five_digits() {
    assert!(matches!(parse_command("1234"), Command::Unknown(_)));
    assert!(matches!(parse_command("123456"), Command::Unknown(_)));
    assert!(matches!(parse_command("1234a"), Command::Unknown(_)));
}

#[test]
fn empty_or_blank_input_is_unknown() {
    assert!(matches!(parse_command(""), Command::Unknown(_)));
    assert!(matches!(parse_command(" \t\n "), Command::Unknown(_)));
}

#[test]
fn stops_location_has_its_blanks_collapsed() {
    assert_eq!(stops("stops   Portage \t and\n\nMain  "), "Portage and Main");
    assert_eq!(stops("STOPS union station"), "union station");
    assert!(matches!(parse_command("stops"), Command::Unknown(_)));
}

#[test]
fn settings_clock_and_help_are_recognised() {
    assert!(matches!(parse_command("settings clock"), Command::SettingsClock(_)));
    assert!(matches!(parse_command("Settings  clock"), Command::SettingsClock(_)));
    assert!(matches!(parse_command("settings clock now"), Command::Unknown(_)));
    assert!(matches!(parse_command("help"), Command::Help(_)));
    assert!(matches!(parse_command("HELPME please"), Command::Help(_)));
}

#[test]
fn normalised_text_is_read_as_it_stands() {
    assert!(matches!(parse_normalised_command("Stops union"), Command::Unknown(_)));
    match parse_normalised_command("times 10619 60") {
        Command::Times(t) => {
            assert_eq!(t.stop_number, "10619");
            assert_eq!(t.routes, vec!["60"]);
        }
        _ => panic!("Expected TimesCommand"),
    }
}

#[test]
fn capitalised_keywords_are_read() {
    assert!(matches!(parse_command("HELP"), Command::Help(_)));
    assert!(matches!(parse_command(" Settings\n clock "), Command::SettingsClock(_)));
    assert!(matches!(parse_command("times 123456"), Command::Unknown(_)));
    assert_eq!(times("Times 10619 BLUE"), ("10619".to_string(), vec!["BLUE".to_string()]));
}
