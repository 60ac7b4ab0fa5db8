use mfro::server::{Route, auth_check, outcome_status, route, str_equal};

#[test]
fn str_equal_compares_text() {
    assert!(str_equal("", ""));
    assert!(str_equal("héllo", "héllo"));
    assert!(!str_equal("hello", "hellO"));
    assert!(!str_equal("hello", "hello "));
}

#[test]
fn auth_check_needs_matching_header() {
    assert!(auth_check("secret", Some("secret")));
    assert!(!auth_check("secret", Some("Secret")));
    assert!(!auth_check("secret", None));
    assert!(!auth_check("secret", Some("")));
}

#[test]
fn garbage_calendar_needs_no_token() {
    assert_eq!(route("/garbage.ics", "GET", "t", None), Route::GarbageCalendar);
    assert_eq!(route("/garbage.ics", "POST", "t", Some("wrong")), Route::GarbageCalendar);
}

#[test]
fn actions_need_post_and_token() {
    assert_eq!(route("/pc_power", "POST", "t", Some("t")), Route::PcPower);
    assert_eq!(route("/garage_door", "POST", "t", Some("t")), Route::GarageDoor);
    assert_eq!(route("/auto_garage_door", "POST", "t", Some("t")), Route::AutoGarageDoor);
    assert_eq!(route("/pc_power", "GET", "t", Some("t")), Route::NotFound);
    assert_eq!(route("/pc_power", "POST", "t", Some("x")), Route::NotFound);
    assert_eq!(route("/garage_door", "POST", "t", None), Route::NotFound);
}

#[test]
fn unknown_urls_are_not_found() {
    assert_eq!(route("/", "GET", "t", None), Route::NotFound);
    assert_eq!(route("/pc_power/", "POST", "t", Some("t")), Route::NotFound);
}

#[test]
fn outcome_status_codes() {
    assert_eq!(outcome_status(true), 200);
    assert_eq!(outcome_status(false), 500);
}
