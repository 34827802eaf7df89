use textabus::routes::RouteNumber;
use textabus::schedule::{
    clock_text, delay_annotation, render_schedule, schedule_reply, RouteSchedule, ScheduleEntry,
    ScheduleError, ScheduledStop, Stop, StopData, StopSchedule, Timestamp,
};

fn departure(variant: &str, estimated: &str, scheduled: &str) -> ScheduledStop {
    ScheduledStop {
        variant_name: variant.to_string(),
        estimated: estimated.to_string(),
        scheduled: scheduled.to_string(),
    }
}

fn graham_stop() -> Stop {
    Stop { name: "WB Graham@Vaughan (The Bay)".to_string(), number: 10619 }
}

fn fixture(stop_data: StopData) -> StopSchedule {
    StopSchedule {
        stop_data,
        route_schedules: vec![
            RouteSchedule {
                route: RouteNumber::Number(60),
                scheduled_stops: vec![departure("UofM", "2019-01-01T12:25:00", "2019-01-01T12:25:00")],
            },
            RouteSchedule {
                route: RouteNumber::Text("BLUE".to_string()),
                scheduled_stops: vec![
                    departure("Downtown", "2019-01-01T12:22:00", "2019-01-01T12:22:30"),
                    departure("Downtown", "2019-01-01T12:19:00", "2019-01-01T12:11:00"),
                ],
            },
            RouteSchedule {
                route: RouteNumber::Number(16),
                scheduled_stops: vec![departure(
                    "St Vital Ctr",
                    "2019-01-01T12:16:00",
                    "2019-01-01T12:17:00",
                )],
            },
        ],
    }
}

fn at(hour: u32, minute: u32) -> Timestamp {
    Timestamp { year: 2024, month: 3, day: 5, hour, minute, second: 0 }
}

#[test]
fn three_minutes_late_is_annotated() {
    assert_eq!(delay_annotation(3), " (3min late)");
    assert_eq!(delay_annotation(12), " (12min late)");
}

#[test]
fn one_minute_ahead_is_annotated() {
    assert_eq!(delay_annotation(-1), " (1min ahead)");
    assert_eq!(delay_annotation(-15), " (15min ahead)");
}

#[test]
fn small_delays_have_no_annotation() {
    assert_eq!(delay_annotation(2), "");
    assert_eq!(delay_annotation(0), "");
}

#[test]
fn clock_times_on_both_clocks() {
    assert_eq!(clock_text(&at(16, 29), true), "4:29p");
    assert_eq!(clock_text(&at(16, 29), false), "16:29");
    assert_eq!(clock_text(&at(0, 5), true), "12:05a");
    assert_eq!(clock_text(&at(0, 5), false), "00:05");
    assert_eq!(clock_text(&at(12, 0), true), "12:00p");
    assert_eq!(clock_text(&at(9, 7), false), "09:07");
}

#[test]
fn stop_schedule_in_twelve_hour_mode() {
    let reply = render_schedule(&fixture(StopData::Single(graham_stop())), &Vec::new(), true);
    assert_eq!(
        reply,
        Ok("10619 WB Graham@Vaughan (The Bay)\n\
            12:16p 16 St Vital Ctr (1min ahead)\n\
            12:19p BLUE Downtown (8min late)\n\
            12:22p BLUE Downtown\n\
            12:25p 60 UofM\n"
            .to_string())
    );
}

#[test]
fn stop_schedule_one_minute_late_has_no_note() {
    let schedule = StopSchedule {
        stop_data: StopData::Single(graham_stop()),
        route_schedules: vec![RouteSchedule {
            route: RouteNumber::Number(16),
            scheduled_stops: vec![departure("St Vital Ctr", "2019-01-01T12:16:00", "2019-01-01T12:15:00")],
        }],
    };
    let reply = render_schedule(&schedule, &Vec::new(), true).unwrap();
    assert_eq!(reply, "10619 WB Graham@Vaughan (The Bay)\n12:16p 16 St Vital Ctr\n");
}

#[test]
fn stop_schedule_in_twenty_four_hour_mode_with_a_filter() {
    let routes = vec!["BLUE".to_string(), "60".to_string()];
    let reply = render_schedule(&fixture(StopData::Multiple(vec![graham_stop()])), &routes, false);
    assert_eq!(
        reply,
        Ok("10619 WB Graham@Vaughan (The Bay)\n\
            12:19 BLUE Downtown (8min late)\n\
            12:22 BLUE Downtown\n\
            12:25 60 UofM\n"
            .to_string())
    );
}

#[test]
fn delays_across_midnight_and_years() {
    let schedule = StopSchedule {
        stop_data: StopData::Single(graham_stop()),
        route_schedules: vec![RouteSchedule {
            route: RouteNumber::Text("S".to_string()),
            scheduled_stops: vec![departure("Night", "2020-01-01T00:02:00", "2019-12-31T23:58:00")],
        }],
    };
    let reply = render_schedule(&schedule, &Vec::new(), false).unwrap();
    assert_eq!(reply, "10619 WB Graham@Vaughan (The Bay)\n00:02 S Night (4min late)\n");
}

#[test]
fn an_empty_stop_list_is_an_error() {
    let reply = render_schedule(&fixture(StopData::Multiple(Vec::new())), &Vec::new(), true);
    assert_eq!(reply, Err(ScheduleError::NoStop));
}

#[test]
fn an_unreadable_time_is_an_error_only_for_wanted_routes() {
    let schedule = StopSchedule {
        stop_data: StopData::Single(graham_stop()),
        route_schedules: vec![
            RouteSchedule {
                route: RouteNumber::Number(11),
                scheduled_stops: vec![departure("Broken", "soon", "2019-01-01T12:15:00")],
            },
            RouteSchedule {
                route: RouteNumber::Number(16),
                scheduled_stops: vec![departure("St Vital Ctr", "2019-01-01T12:16:00", "2019-01-01T12:16:00")],
            },
        ],
    };
    assert_eq!(render_schedule(&schedule, &Vec::new(), true), Err(ScheduleError::BadTimestamp));
    let only_16 = vec!["16".to_string()];
    assert_eq!(
        render_schedule(&schedule, &only_16, true),
        Ok("10619 WB Graham@Vaughan (The Bay)\n12:16p 16 St Vital Ctr\n".to_string())
    );
}

#[test]
fn long_schedules_are_cut_at_whole_lines() {
    let mut entries = Vec::new();
    for minute in 0..30u32 {
        entries.push(ScheduleEntry { departure: at(14, minute), line: format!("{} Route", minute) });
    }
    let reply = schedule_reply(&graham_stop(), &entries, true);
    assert!(reply.chars().count() <= 140);
    assert!(reply.ends_with('\n'));
    let lines: Vec<&str> = reply.lines().collect();
    assert_eq!(lines[0], "10619 WB Graham@Vaughan (The Bay)");
    assert_eq!(lines[1], "2:00p 0 Route");
    assert_eq!(lines.len(), 8);
    assert_eq!(lines[7], "2:06p 6 Route");
    assert_eq!(reply.chars().count(), 132);
}

#[test]
fn equal_departures_keep_their_order() {
    let entries = vec![
        ScheduleEntry { departure: at(9, 30), line: "B second".to_string() },
        ScheduleEntry { departure: at(9, 10), line: "A first".to_string() },
        ScheduleEntry { departure: at(9, 30), line: "C third".to_string() },
    ];
    let reply = schedule_reply(&graham_stop(), &entries, false);
    assert_eq!(
        reply,
        "10619 WB Graham@Vaughan (The Bay)\n09:10 A first\n09:30 B second\n09:30 C third\n"
    );
}
