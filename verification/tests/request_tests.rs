use webweg::types::{
    CourseSection, EnrollmentStatus, ScheduledSection, SectionIdNotFoundContext, WrapperError,
};
use webweg::raw_types::{RawDepartmentElement, RawSubjectElement, RawTermListItem, RawWebRegSearchResultItem};
use webweg::wrapper::input_types::{
    CourseLevelFilter, DayOfWeek, EnrollWaitAdd, EventAdd, ExplicitAddType, GradeOption, PlanAdd,
    SearchRequestBuilder, SearchType,
};
use webweg::wrapper::requests::{
    add_section_form, add_section_url, add_type_for, all_terms_url, associate_term_urls, change_grading_form,
    check_status, check_verification, course_data_url, department_codes, drop_section_form, drop_section_url,
    edit_section_url, email_result, event_form, event_url, events_url, get_course_dept_id, keep_wanted_sections,
    ping_url, plan_add_form, prerequisites_url, process_post_text, remove_all_plan_form, remove_event_form,
    remove_plan_form, remove_schedule_form, rename_schedule_form, schedule_list_url, schedule_url,
    search_filter_ids, search_target, send_email_form, session_ok, subject_codes, terms_of, validate_plan_form,
    validate_section_form, zero_trim, ENROLL_ADD, EVENT_ADD, EVENT_EDIT, WAITLIST_DROP, WAITLIST_EDIT,
};
use webweg::ww_parser::build_search_course_url;

fn pairs(v: &[(&str, &str)]) -> Vec<(String, String)> {
    v.iter().map(|(a, b)| (a.to_string(), b.to_string())).collect()
}

fn section(id: &str, avail: i64, waitlist: i64) -> CourseSection {
    CourseSection {
        subj_course_id: "CSE 100".into(),
        section_id: id.into(),
        section_code: "A01".into(),
        all_instructors: vec![],
        available_seats: avail,
        enrolled_ct: 0,
        total_seats: 0,
        waitlist_ct: waitlist,
        meetings: vec![],
        is_visible: true,
    }
}

fn scheduled(id: &str, units: i64) -> ScheduledSection {
    ScheduledSection {
        section_id: id.into(),
        subject_code: "CSE".into(),
        course_code: "100".into(),
        course_title: "Advanced Data Structures".into(),
        section_code: "A01".into(),
        section_capacity: 10,
        enrolled_count: 5,
        available_seats: 5,
        grade_option: "L".into(),
        all_instructors: vec![],
        units,
        enrolled_status: EnrollmentStatus::Enrolled,
        waitlist_ct: 0,
        meetings: vec![],
    }
}

#[test]
fn search_url_by_section() {
    let url = build_search_course_url(SearchType::BySection("079911".into()), "FA23", 0).unwrap();
    assert_eq!(
        url,
        "https://act.ucsd.edu/webreg2/svc/wradapter/secure/search-by-sectionid?sectionid=079911&termcode=FA23"
    );
    let url = build_search_course_url(
        SearchType::ByMultipleSections(vec!["1".into(), "2".into()]),
        "FA23",
        0,
    )
    .unwrap();
    assert_eq!(
        url,
        "https://act.ucsd.edu/webreg2/svc/wradapter/secure/search-by-sectionid?sectionid=1%3A2&termcode=FA23"
    );
}

#[test]
fn search_url_advanced() {
    let req = SearchRequestBuilder::new()
        .add_subject("cse")
        .add_subject("math")
        .add_course("cse 8b")
        .set_instructor("doe")
        .filter_courses_by(CourseLevelFilter::LowerDivision)
        .apply_day(DayOfWeek::Monday)
        .set_start_time(9, 5)
        .only_allow_open();
    let url = build_search_course_url(SearchType::Advanced(req), "WI24", 1700000000000).unwrap();
    assert_eq!(
        url,
        "https://act.ucsd.edu/webreg2/svc/wradapter/secure/search-by-all?subjcode=CSE%3AMATH&crsecode=CSE%3A++8B\
&department=&professor=DOE&title=&levels=100000000000&days=1000000&timestr=0905%3A&opensection=true\
&isbasic=true&basicsearchvalue=&termcode=WI24&_=1700000000000"
    );
    let plain = build_search_course_url(SearchType::Advanced(SearchRequestBuilder::new()), "WI24", 7).unwrap();
    assert_eq!(
        plain,
        "https://act.ucsd.edu/webreg2/svc/wradapter/secure/search-by-all?subjcode=&crsecode=&department=\
&professor=&title=&levels=&days=&timestr=&opensection=false&isbasic=true&basicsearchvalue=&termcode=WI24&_=7"
    );
}

#[test]
fn get_urls() {
    assert_eq!(
        prerequisites_url("CSE", "8B", "FA23", 5).unwrap(),
        "https://act.ucsd.edu/webreg2/svc/wradapter/secure/get-prerequisites?subjcode=CSE&crsecode=++8B&termcode=FA23&_=5"
    );
    assert_eq!(
        course_data_url("CSE", "100", "FA23", 5).unwrap(),
        "https://act.ucsd.edu/webreg2/svc/wradapter/secure/search-load-group-data?subjcode=CSE&crsecode=100&termcode=FA23&_=5"
    );
    assert_eq!(
        schedule_url(None, "FA23", 1).unwrap(),
        "https://act.ucsd.edu/webreg2/svc/wradapter/secure/get-class?schedname=My+Schedule&final=&sectnum=&termcode=FA23&_=1"
    );
    assert_eq!(
        schedule_url(Some("Other"), "FA23", 1).unwrap(),
        "https://act.ucsd.edu/webreg2/svc/wradapter/secure/get-class?schedname=Other&final=&sectnum=&termcode=FA23&_=1"
    );
    assert_eq!(
        events_url("FA23").unwrap(),
        "https://act.ucsd.edu/webreg2/svc/wradapter/secure/event-get?termcode=FA23"
    );
    assert_eq!(
        schedule_list_url("FA23").unwrap(),
        "https://act.ucsd.edu/webreg2/svc/wradapter/secure/sched-get-schednames?termcode=FA23"
    );
    assert_eq!(all_terms_url(3).unwrap(), "https://act.ucsd.edu/webreg2/svc/wradapter/get-term?_=3");
    assert_eq!(ping_url(42), "https://act.ucsd.edu/webreg2/svc/wradapter/secure/ping-server?_=42");
}

#[test]
fn associate_term_checks_the_term() {
    let (a, b) = associate_term_urls("fa23", 9).unwrap();
    assert_eq!(
        a,
        "https://act.ucsd.edu/webreg2/svc/wradapter/get-status-start?termcode=FA23&seqid=5320&_=9"
    );
    assert_eq!(
        b,
        "https://act.ucsd.edu/webreg2/svc/wradapter/check-eligibility?termcode=FA23&seqid=5320&logged=true&_=9"
    );
    match associate_term_urls("XX23", 9) {
        Err(WrapperError::InputError(name, reason)) => {
            assert_eq!(name, "term");
            assert_eq!(reason, "term is not valid.");
        },
        other => panic!("unexpected {other:?}"),
    }
}

#[test]
fn post_answers() {
    assert!(process_post_text("{\"OPS\":\"SUCCESS\"}").unwrap());
    match process_post_text("{\"OPS\":\"FAIL\",\"REASON\":\"  <b>Class</b> is full. \"}") {
        Err(WrapperError::WebRegError(msg)) => assert_eq!(msg, "Class is full."),
        other => panic!("unexpected {other:?}"),
    }
    match process_post_text("{\"OPS\":\"FAIL\"}") {
        Err(WrapperError::WebRegError(msg)) => assert_eq!(msg, ""),
        other => panic!("unexpected {other:?}"),
    }
    assert!(matches!(process_post_text("not json"), Err(WrapperError::SerdeError(_))));
}

#[test]
fn status_and_verification() {
    assert!(check_status(200, None).is_ok());
    assert!(check_status(299, None).is_ok());
    match check_status(404, Some("gone".into())) {
        Err(WrapperError::BadStatusCode(404, Some(t))) => assert_eq!(t, "gone"),
        other => panic!("unexpected {other:?}"),
    }
    assert_eq!(check_verification("[1,2]".into()).unwrap(), "[1,2]");
    match check_verification("xx[{\"VERIFY\":\"FAIL\"}]".into()) {
        Err(WrapperError::WebRegError(m)) => {
            assert_eq!(m, "Verification error: register your term using the `associate_term` function.")
        },
        other => panic!("unexpected {other:?}"),
    }
    assert!(session_ok("{\"SESSION_OK\":true}"));
    assert!(!session_ok("{\"SESSION_OK\":false}"));
    assert!(!session_ok("{\"SESSION_OK\":\"true\"}"));
    assert!(!session_ok("oops"));
}

#[test]
fn plan_forms() {
    let plan = PlanAdd::builder()
        .with_subject_code("CSE")
        .with_course_code("8B")
        .with_section_id("079911")
        .with_section_code("A01")
        .with_unit_count(4)
        .try_build()
        .unwrap();
    assert_eq!(
        plan_add_form(&plan, "FA23"),
        pairs(&[
            ("subjcode", "CSE"),
            ("crsecode", "  8B"),
            ("sectnum", "079911"),
            ("sectcode", "A01"),
            ("unit", "4"),
            ("grade", "L"),
            ("termcode", "FA23"),
            ("schedname", "My Schedule"),
        ])
    );
    assert_eq!(
        validate_plan_form(&plan, "FA23"),
        pairs(&[("section", "079911"), ("subjcode", "CSE"), ("crsecode", "  8B"), ("termcode", "FA23")])
    );
    assert_eq!(
        remove_plan_form("079911", Some("Mine"), "FA23"),
        pairs(&[("sectnum", "079911"), ("termcode", "FA23"), ("schedname", "Mine")])
    );
}

#[test]
fn enroll_forms_and_urls() {
    let e = EnrollWaitAdd::builder().with_section_id("123").with_grading_option(GradeOption::P).with_unit_count(12).try_build().unwrap();
    assert_eq!(
        add_section_form(&e, "FA23"),
        pairs(&[("section", "123"), ("termcode", "FA23"), ("unit", "12"), ("grade", "P"), ("crsecode", ""), ("subjcode", "")])
    );
    let d = EnrollWaitAdd::new("9");
    assert_eq!(
        add_section_form(&d, "FA23"),
        pairs(&[("section", "9"), ("termcode", "FA23"), ("unit", ""), ("grade", "L"), ("crsecode", ""), ("subjcode", "")])
    );
    assert_eq!(
        validate_section_form("9", "FA23"),
        pairs(&[("section", "9"), ("termcode", "FA23"), ("subjcode", ""), ("crsecode", "")])
    );
    assert_eq!(remove_all_plan_form("9", "FA23"), pairs(&[("sectnum", "9"), ("termcode", "FA23")]));
    assert_eq!(
        drop_section_form("9", "FA23"),
        pairs(&[("subjcode", ""), ("crsecode", ""), ("section", "9"), ("termcode", "FA23")])
    );
    assert_eq!(add_section_url(ExplicitAddType::Enroll), ENROLL_ADD);
    assert_eq!(edit_section_url(ExplicitAddType::Waitlist), WAITLIST_EDIT);
    assert_eq!(drop_section_url(ExplicitAddType::Waitlist), WAITLIST_DROP);
}

#[test]
fn schedule_forms() {
    assert_eq!(
        rename_schedule_form("Old", "New", "FA23").unwrap(),
        pairs(&[("termcode", "FA23"), ("oldschedname", "Old"), ("newschedname", "New")])
    );
    assert!(matches!(
        rename_schedule_form("My Schedule", "New", "FA23"),
        Err(WrapperError::InputError("old_name", "You cannot rename the default schedule"))
    ));
    assert_eq!(
        remove_schedule_form("Old", "FA23").unwrap(),
        pairs(&[("termcode", "FA23"), ("schedname", "Old")])
    );
    assert!(matches!(
        remove_schedule_form("My Schedule", "FA23"),
        Err(WrapperError::InputError("schedule_name", "You cannot remove the default schedule."))
    ));
    assert_eq!(remove_event_form("ts", "FA23"), pairs(&[("aetimestamp", "ts"), ("termcode", "FA23")]));
    assert_eq!(send_email_form("hi", "FA23"), pairs(&[("actionevent", "hi"), ("termcode", "FA23")]));
    assert!(email_result("[\"YES\"]".into()).is_ok());
    assert!(matches!(email_result("no".into()), Err(WrapperError::WebRegError(m)) if m == "no"));
}

fn event(days: Vec<DayOfWeek>, start: (i16, i16), end: (i16, i16)) -> EventAdd {
    EventAdd {
        event_name: "Gym".into(),
        location: None,
        event_days: days,
        start_hr: start.0,
        start_min: start.1,
        end_hr: end.0,
        end_min: end.1,
    }
}

#[test]
fn event_forms() {
    let e = event(vec![DayOfWeek::Sunday, DayOfWeek::Monday, DayOfWeek::Monday], (7, 5), (9, 30));
    assert_eq!(
        event_form(&e, "FA23", None).unwrap(),
        pairs(&[
            ("termcode", "FA23"),
            ("aename", "Gym"),
            ("aestarttime", "0705"),
            ("aeendtime", "0930"),
            ("aelocation", ""),
            ("aedays", "1000001"),
        ])
    );
    let edited = event_form(&e, "FA23", Some("stamp")).unwrap();
    assert_eq!(edited.last().unwrap(), &("aetimestamp".to_string(), "stamp".to_string()));
    assert_eq!(event_url(None), EVENT_ADD);
    assert_eq!(event_url(Some("stamp")), EVENT_EDIT);
    let check = |e: EventAdd, name: &str| match event_form(&e, "FA23", None) {
        Err(WrapperError::InputError(n, _)) => assert_eq!(n, name),
        other => panic!("unexpected {other:?}"),
    };
    check(event(vec![DayOfWeek::Monday], (10, 0), (10, 0)), "time");
    check(event(vec![DayOfWeek::Monday], (6, 0), (10, 0)), "event_info.start_hr");
    check(event(vec![DayOfWeek::Monday], (22, 1), (23, 0)), "event_info.start");
    check(event(vec![], (9, 0), (10, 0)), "event_info.event_days");
    assert!(event_form(&event(vec![DayOfWeek::Friday], (22, 0), (23, 0)), "FA23", None).is_ok());
}

#[test]
fn grading_change_finds_unpadded_id() {
    let sched = vec![scheduled("12", 2), scheduled("79911", 4)];
    assert_eq!(
        change_grading_form(&sched, "079911", GradeOption::P, "FA23").unwrap(),
        pairs(&[
            ("section", "79911"),
            ("subjCode", ""),
            ("crseCode", ""),
            ("unit", "4"),
            ("grade", "P"),
            ("oldGrade", ""),
            ("oldUnit", ""),
            ("termcode", "FA23"),
        ])
    );
    match change_grading_form(&sched, "000", GradeOption::L, "FA23") {
        Err(WrapperError::SectionIdNotFound(id, SectionIdNotFoundContext::Schedule)) => assert_eq!(id, "000"),
        other => panic!("unexpected {other:?}"),
    }
}

#[test]
fn add_type_decisions() {
    let found = vec![RawWebRegSearchResultItem {
        subj_code: " CSE ".into(),
        course_code: "100 ".into(),
        course_title: "x".into(),
    }];
    assert_eq!(search_target("1", &found).unwrap(), ("CSE".to_string(), "100".to_string()));
    assert!(matches!(
        search_target("1", &vec![]),
        Err(WrapperError::SectionIdNotFound(_, SectionIdNotFoundContext::Catalog))
    ));
    let secs = vec![section("1", 3, 0), section("2", 3, 1), section("3", 0, 0)];
    assert_eq!(add_type_for("1", &secs).unwrap(), ExplicitAddType::Enroll);
    assert_eq!(add_type_for("2", &secs).unwrap(), ExplicitAddType::Waitlist);
    assert_eq!(add_type_for("3", &secs).unwrap(), ExplicitAddType::Waitlist);
    assert!(matches!(
        add_type_for("4", &secs),
        Err(WrapperError::SectionIdNotFound(id, SectionIdNotFoundContext::Catalog)) if id == "4"
    ));
}

#[test]
fn zero_trim_examples() {
    assert_eq!(zero_trim("0001000"), "1");
    assert_eq!(zero_trim("0000"), "");
    assert_eq!(zero_trim("00100100"), "1001");
    assert_eq!(zero_trim("079910"), "7991");
    assert_eq!(zero_trim("1000"), "1");
    assert_eq!(zero_trim("1"), "1");
    assert_eq!(zero_trim("2000"), "2");
    assert_eq!(zero_trim(""), "");
    assert_eq!(zero_trim("0é0"), "é");
}

#[test]
fn detailed_search_filter() {
    let ids = search_filter_ids(&SearchType::ByMultipleSections(vec!["079911".into(), "012".into()]));
    assert_eq!(ids, vec!["79911".to_string(), "12".to_string()]);
    assert!(search_filter_ids(&SearchType::Advanced(SearchRequestBuilder::new())).is_empty());
    assert_eq!(search_filter_ids(&SearchType::BySection("0050".into())), vec!["5".to_string()]);
    let secs = vec![section("079911", 0, 0), section("55", 0, 0), section("12", 0, 0)];
    let kept = keep_wanted_sections(&ids, secs.clone());
    assert_eq!(kept.iter().map(|s| s.section_id.as_str()).collect::<Vec<_>>(), vec!["079911", "12"]);
    assert_eq!(keep_wanted_sections(&vec![], secs.clone()), secs);
}

#[test]
fn listing_helpers() {
    assert_eq!(get_course_dept_id(" cse ", "8b "), "CSE 8B");
    assert_eq!(
        department_codes(&vec![RawDepartmentElement { dep_code: " CSE ".into() }]),
        vec!["CSE".to_string()]
    );
    assert_eq!(
        subject_codes(&vec![RawSubjectElement { subject_code: "MATH  ".into() }]),
        vec!["MATH".to_string()]
    );
    let terms = terms_of(&vec![RawTermListItem { seq_id: 5320, term_code: "FA23".into() }]);
    assert_eq!(terms.len(), 1);
    assert_eq!(terms[0].seq_id, 5320);
    assert_eq!(terms[0].term_code, "FA23");
}
