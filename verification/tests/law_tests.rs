use webweg::raw_types::RawEvent;
use webweg::types::{CourseSection, WrapperError};
use webweg::util::{format_multiple_courses, parse_binary_days};
use webweg::wrapper::input_types::{DayOfWeek, EventAdd, SearchRequestBuilder};
use webweg::wrapper::requests::{detailed_search_step, event_times_ok, DetailedSearch};
use webweg::ww_parser::events_ok;

#[test]
fn course_search_joins_two_query_lists() {
    let f = |q: &[&str]| format_multiple_courses(q);
    assert_eq!(f(&[]), "");
    assert_eq!(f(&["CSE 8B", "MATH 100A"]), format!("{};{}", f(&["CSE 8B"]), f(&["MATH 100A"])));
    assert_eq!(f(&["CSE 8B", "   "]), f(&["CSE 8B"]));
    assert_eq!(f(&["  ", "MATH 100A"]), f(&["MATH 100A"]));
    assert_eq!(f(&[" ", "\t"]), "");
    assert_ne!(f(&[" ", "CSE"]), "");
}

#[test]
fn course_code_with_or_without_space() {
    assert_eq!(format_multiple_courses(&["CSE 8B"]), format_multiple_courses(&["CSE8B"]));
    assert_eq!(format_multiple_courses(&["CSE8B"]), "CSE:  8B");
    assert_eq!(format_multiple_courses(&["MATH 100A"]), format_multiple_courses(&["MATH100A"]));
    assert_eq!(format_multiple_courses(&["MATH100A"]), "MATH:100A");
    assert_eq!(format_multiple_courses(&["cse8b"]), format_multiple_courses(&["CSE8B"]));
    assert_eq!(format_multiple_courses(&["math 20d"]), "MATH: 20D");
}

#[test]
fn course_search_joins_after_upper_casing() {
    let f = |q: &[&str]| format_multiple_courses(q);
    assert_eq!(f(&["8a", "cse 12"]), format!("{};{}", f(&["8a"]), f(&["cse 12"])));
    assert_eq!(f(&["8a", "cse 12"]), "  8A;CSE: 12");
}

#[test]
fn applied_days_read_back_from_binary_digits() {
    let days = [DayOfWeek::Sunday, DayOfWeek::Monday, DayOfWeek::Friday, DayOfWeek::Monday];
    let r = days.iter().fold(SearchRequestBuilder::new(), |b, d| b.apply_day(*d));
    assert!(r.days < 128);
    assert_eq!(parse_binary_days(&format!("{:07b}", r.days)), vec!["M", "F", "Su"]);
    let none = SearchRequestBuilder::new();
    assert_eq!(parse_binary_days(&format!("{:07b}", none.days)), Vec::<String>::new());
}

fn section(id: &str) -> CourseSection {
    CourseSection {
        subj_course_id: "CSE 8A".into(),
        section_id: id.into(),
        section_code: "A01".into(),
        all_instructors: vec![],
        available_seats: 0,
        enrolled_ct: 0,
        total_seats: 0,
        waitlist_ct: 0,
        meetings: vec![],
        is_visible: true,
    }
}

#[test]
fn detailed_search_continues_or_stops() {
    let ids = vec!["12".to_string()];
    let got = detailed_search_step(&ids, vec![section("5")], Ok(vec![section("0012"), section("13")]));
    match got {
        DetailedSearch::Continue(v) => {
            let ids: Vec<&str> = v.iter().map(|s| s.section_id.as_str()).collect();
            assert_eq!(ids, vec!["5", "0012"]);
        }
        DetailedSearch::Stop(_) => panic!("the search should go on"),
    }
    let stopped = detailed_search_step(&ids, vec![section("5")], Err(WrapperError::SessionNotValid));
    match stopped {
        DetailedSearch::Stop(v) => assert_eq!(v, vec![section("5")]),
        DetailedSearch::Continue(_) => panic!("the search should stop"),
    }
    let all = detailed_search_step(&vec![], vec![], Ok(vec![section("1"), section("2")]));
    assert!(matches!(all, DetailedSearch::Continue(v) if v.len() == 2));
}

fn event(start_hr: i16, start_min: i16, end_hr: i16, end_min: i16) -> EventAdd {
    EventAdd {
        event_name: "Study".into(),
        location: None,
        event_days: vec![DayOfWeek::Monday],
        start_hr,
        start_min,
        end_hr,
        end_min,
    }
}

#[test]
fn event_times_fit_in_i16() {
    assert!(event_times_ok(&event(9, 30, 17, 45)));
    assert!(event_times_ok(&event(327, 67, 0, 0)));
    assert!(!event_times_ok(&event(327, 68, 0, 0)));
    assert!(!event_times_ok(&event(0, 0, 328, 0)));
    assert!(!event_times_ok(&event(-328, 0, 0, 0)));
}

fn raw_event(start: &str, end: &str, days: &str) -> RawEvent {
    RawEvent {
        location: "Library".into(),
        start_time: start.into(),
        end_time: end.into(),
        description: "Study".into(),
        days: days.into(),
        time_stamp: "2023-01-01 10:00:00.0".into(),
    }
}

#[test]
fn events_checked_before_parsing() {
    assert!(events_ok(&vec![]));
    assert!(events_ok(&vec![raw_event("0930", "1745", "1010100")]));
    assert!(!events_ok(&vec![raw_event("0930", "1745", "1010100"), raw_event("930", "1745", "1010100")]));
    assert!(!events_ok(&vec![raw_event("0930", "174", "1010100")]));
    assert!(!events_ok(&vec![raw_event("0930", "1745", "10101é")]));
    assert!(events_ok(&vec![raw_event("0930", "1745", "1010")]));
}
