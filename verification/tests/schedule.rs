use std::cell::Cell;

use mfro::schedule::{
    CALENDAR_TIMEOUT_MICROS, Cache, PickupGroup, Service, ServiceCalendar, generate_ics,
    group_by_day, join_with_commas, parse_pickup_date, plan_pickups,
};

fn service(description: &str, id: &str) -> Service {
    Service { description: description.to_string(), service_point_id: id.to_string() }
}

fn entry(id: &str, dates: &[&str]) -> ServiceCalendar {
    ServiceCalendar {
        service_point_id: id.to_string(),
        dates: dates.iter().map(|d| d.to_string()).collect(),
    }
}

#[test]
fn pickup_date_reads_month_day_year() {
    assert_eq!(parse_pickup_date("3/14/2024"), Some((3, 14, 2024)));
    assert_eq!(parse_pickup_date("03/04/2025"), Some((3, 4, 2025)));
    assert_eq!(parse_pickup_date("+3/14/2024"), Some((3, 14, 2024)));
}

#[test]
fn pickup_date_skips_parts_that_are_not_numbers() {
    assert_eq!(parse_pickup_date("3/x/14/2024"), Some((3, 14, 2024)));
    assert_eq!(parse_pickup_date("3//14/2024"), Some((3, 14, 2024)));
    assert_eq!(parse_pickup_date("-3/1/2/2024"), Some((1, 2, 2024)));
    assert_eq!(parse_pickup_date("4294967296/1/2/3"), Some((1, 2, 3)));
}

#[test]
fn pickup_date_needs_exactly_three_numbers() {
    assert_eq!(parse_pickup_date(""), None);
    assert_eq!(parse_pickup_date("3/14"), None);
    assert_eq!(parse_pickup_date("1/2/3/4"), None);
    assert_eq!(parse_pickup_date("+/1/2"), None);
    assert_eq!(parse_pickup_date("2024-03-14"), None);
}

#[test]
fn join_names_with_commas() {
    assert_eq!(join_with_commas(&vec![]), "");
    assert_eq!(join_with_commas(&vec!["Garbage".to_string()]), "Garbage");
    assert_eq!(
        join_with_commas(&vec!["Garbage".to_string(), "Recycle".to_string(), "Food".to_string()]),
        "Garbage, Recycle, Food"
    );
}

#[test]
fn services_grouped_by_day() {
    let services = vec![service("Garbage", "A"), service("Recycle", "B"), service("Yard", "C")];
    let calendar = vec![
        entry("B", &["1/2/2024"]),
        entry("A", &["1/2/2024", "1/9/2024"]),
    ];
    let groups = group_by_day(&services, &calendar);
    assert_eq!(groups.len(), 2);
    assert_eq!(groups[0].date, "1/2/2024");
    assert_eq!(groups[0].names, vec!["Garbage".to_string(), "Recycle".to_string()]);
    assert_eq!(groups[1].date, "1/9/2024");
    assert_eq!(groups[1].names, vec!["Garbage".to_string()]);
}

#[test]
fn plan_drops_dates_that_do_not_exist() {
    let groups = vec![
        PickupGroup { date: "2/29/2024".to_string(), names: vec!["Garbage".to_string()] },
        PickupGroup { date: "2/29/2023".to_string(), names: vec!["Recycle".to_string()] },
        PickupGroup { date: "13/1/2024".to_string(), names: vec!["Yard".to_string()] },
        PickupGroup { date: "1/1/300000".to_string(), names: vec!["Far".to_string()] },
        PickupGroup { date: "soon".to_string(), names: vec!["Never".to_string()] },
        PickupGroup {
            date: "12/31/2025".to_string(),
            names: vec!["Garbage".to_string(), "Food".to_string()],
        },
    ];
    let events = plan_pickups(&groups);
    assert_eq!(events.len(), 2);
    assert_eq!((events[0].year, events[0].month, events[0].day), (2024, 2, 29));
    assert_eq!(events[0].summary, "Garbage");
    assert_eq!((events[1].year, events[1].month, events[1].day), (2025, 12, 31));
    assert_eq!(events[1].summary, "Garbage, Food");
}

#[test]
fn plan_keeps_year_2000_leap_day_and_drops_1900() {
    let groups = vec![
        PickupGroup { date: "2/29/2000".to_string(), names: vec!["A".to_string()] },
        PickupGroup { date: "2/29/1900".to_string(), names: vec!["B".to_string()] },
        PickupGroup { date: "4/31/2024".to_string(), names: vec!["C".to_string()] },
    ];
    let events = plan_pickups(&groups);
    assert_eq!(events.len(), 1);
    assert_eq!(events[0].summary, "A");
}

#[test]
fn ics_holds_one_event_per_pickup_day() {
    let services = vec![service("Garbage", "A"), service("Recycle", "B")];
    let calendar = vec![entry("A", &["1/2/2024", "1/9/2024"]), entry("B", &["1/2/2024"])];
    let ics = generate_ics(&services, &calendar);
    assert!(ics.starts_with("BEGIN:VCALENDAR"));
    assert_eq!(ics.matches("BEGIN:VEVENT").count(), 2);
    assert!(ics.contains("SUMMARY:Garbage\\, Recycle") || ics.contains("SUMMARY:Garbage, Recycle"));
    assert!(ics.contains("20240102"));
    assert!(ics.contains("20240109"));
    assert!(ics.contains("Take out the bins"));
    assert!(ics.contains("TRIGGER:-PT21600S"));
}

#[test]
fn ics_without_pickups_has_no_events() {
    let services = vec![service("Garbage", "Z")];
    let calendar = vec![entry("A", &["1/2/2024"])];
    let ics = generate_ics(&services, &calendar);
    assert!(ics.contains("BEGIN:VCALENDAR"));
    assert_eq!(ics.matches("BEGIN:VEVENT").count(), 0);
}

#[test]
fn cache_serves_value_until_expiration() {
    let calls = Cell::new(0u32);
    let mut cache = Cache::new(CALENDAR_TIMEOUT_MICROS, || {
        calls.set(calls.get() + 1);
        calls.get()
    });
    assert_eq!(*cache.get_at(0), 1);
    assert_eq!(*cache.get_at(1_000), 1);
    assert_eq!(*cache.get_at(CALENDAR_TIMEOUT_MICROS - 1), 1);
    assert_eq!(calls.get(), 1);
    assert_eq!(*cache.get_at(CALENDAR_TIMEOUT_MICROS), 2);
    assert_eq!(*cache.get_at(CALENDAR_TIMEOUT_MICROS + 5), 2);
    assert_eq!(calls.get(), 2);
}

#[test]
fn cache_first_read_fetches_even_before_epoch() {
    let calls = Cell::new(0u32);
    let mut cache = Cache::new(10, || {
        calls.set(calls.get() + 1);
        "ics".to_string()
    });
    assert_eq!(cache.get_at(-100), "ics");
    assert_eq!(cache.get_at(-95), "ics");
    assert_eq!(calls.get(), 1);
}

#[test]
fn cache_get_uses_the_clock() {
    let calls = Cell::new(0u32);
    let mut cache = Cache::new(CALENDAR_TIMEOUT_MICROS, || {
        calls.set(calls.get() + 1);
        42u8
    });
    assert_eq!(cache.get().copied(), Some(42));
    assert_eq!(cache.get().copied(), Some(42));
    assert_eq!(calls.get(), 1);
}

#[test]
fn plan_reads_year_as_i32() {
    let groups = vec![PickupGroup { date: "1/1/4294967295".to_string(), names: vec!["Wrapped".to_string()] }];
    let events = plan_pickups(&groups);
    assert_eq!(events.len(), 1);
    assert_eq!((events[0].year, events[0].month, events[0].day), (-1, 1, 1));
}

#[test]
fn ics_opens_with_calendar_header_and_closes_it() {
    let services = vec![service("Garbage", "A")];
    let calendar = vec![entry("A", &["1/2/2024"])];
    for ics in [generate_ics(&services, &calendar), generate_ics(&services, &vec![])] {
        assert!(ics.starts_with(
            "BEGIN:VCALENDAR\r\nVERSION:2.0\r\nPRODID:ICALENDAR-RS\r\nCALSCALE:GREGORIAN\r\n"
        ));
        assert!(ics.ends_with("END:VCALENDAR\r\n"));
    }
}

#[test]
fn cache_get_with_huge_timeout_gives_nothing() {
    let mut cache = Cache::new(i64::MAX, || 7u8);
    assert_eq!(cache.get().copied(), None);
    let mut cache = Cache::new(i64::MIN, || 7u8);
    assert_eq!(cache.get().copied(), Some(7));
}

fn mask_varying_lines(ics: &str) -> String {
    ics.split("\r\n")
        .map(|line| {
            if line.starts_with("DTSTAMP:") {
                "DTSTAMP:*"
            } else if line.starts_with("UID:") {
                "UID:*"
            } else {
                line
            }
        })
        .collect::<Vec<_>>()
        .join("\r\n")
}

#[test]
fn ics_renders_one_event_per_pickup_day() {
    let services = vec![service("Garbage", "1"), service("Recycling", "2")];
    let calendar = vec![
        entry("1", &["1/2/2025"]),
        entry("2", &["1/2/2025", "2/30/2025"]),
        entry("3", &["3/3/2025"]),
    ];
    let ics = generate_ics(&services, &calendar);
    let expected = "BEGIN:VCALENDAR\r\nVERSION:2.0\r\nPRODID:ICALENDAR-RS\r\nCALSCALE:GREGORIAN\r\n\
BEGIN:VEVENT\r\nDTSTAMP:*\r\nDTSTART;VALUE=DATE:20250102\r\nSUMMARY:Garbage\\, Recycling\r\nUID:*\r\n\
BEGIN:VALARM\r\nDTSTAMP:*\r\nACTION:DISPLAY\r\nDESCRIPTION:Take out the bins\r\nTRIGGER:-PT21600S\r\nUID:*\r\n\
END:VALARM\r\nEND:VEVENT\r\nEND:VCALENDAR\r\n";
    assert_eq!(mask_varying_lines(&ics), expected);
}

#[test]
fn ics_folds_long_summaries_into_pieces() {
    let names: Vec<Service> = (0..12).map(|i| service(&format!("Service number {i}"), "1")).collect();
    let calendar = vec![entry("1", &["12/31/2024"])];
    let ics = generate_ics(&names, &calendar);
    let unfolded = ics.replace("\r\n ", "");
    let joined: Vec<String> = (0..12).map(|i| format!("Service number {i}")).collect();
    let summary = format!("SUMMARY:{}\r\n", joined.join("\\, "));
    assert!(unfolded.contains(&summary));
    assert!(ics.contains("\r\n "));
    assert!(ics.contains("DTSTART;VALUE=DATE:20241231\r\n"));
}
