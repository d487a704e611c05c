use webweg::wrapper::input_types::{
    CourseLevelFilter, DayOfWeek, EnrollWaitAdd, EnrollWaitAddBuilder, EventAdd, EventAddBuilder, GradeOption,
    PlanAdd, PlanAddBuilder, SearchRequestBuilder,
};

#[test]
fn success_construct_plan_add() {
    let plan_add = PlanAdd::builder()
        .with_section_id("my section id")
        .with_unit_count(41)
        .with_grading_option(GradeOption::P)
        .with_subject_code("CSE")
        .with_course_code("291")
        .with_schedule_name("a schedule")
        .with_section_code("A0000")
        .try_build()
        .unwrap();

    assert_eq!(plan_add.section_id, "my section id");
    assert_eq!(plan_add.unit_count, 41);
    assert!(matches!(plan_add.grading_option, Some(GradeOption::P)));
    assert_eq!(plan_add.subject_code, "CSE");
    assert_eq!(plan_add.course_code, "291");
    assert_eq!(plan_add.schedule_name.unwrap(), "a schedule");
    assert_eq!(plan_add.section_code, "A0000");
}

#[test]
fn fail_construct_plan_add() {
    // No unit count
    let plan_add = PlanAdd::builder()
        .with_section_id("my section id")
        .with_grading_option(GradeOption::P)
        .with_subject_code("CSE")
        .with_course_code("291")
        .with_schedule_name("a schedule")
        .with_section_code("A0000")
        .try_build();
    assert!(plan_add.is_none());
}

#[test]
fn success_construct_event_add() {
    let event_add = EventAdd::builder()
        .with_name("kira is bad")
        .with_location("and ruby is too")
        .with_day(DayOfWeek::Monday)
        .with_day(DayOfWeek::Wednesday)
        .with_day(DayOfWeek::Friday)
        .with_start_time(10, 0)
        .with_end_time(12 + 5, 59)
        .try_build()
        .unwrap();

    assert_eq!(event_add.event_name, "kira is bad");
    assert_eq!(event_add.location.unwrap(), "and ruby is too");
    assert_eq!(
        event_add.event_days,
        vec![DayOfWeek::Monday, DayOfWeek::Wednesday, DayOfWeek::Friday]
    );
    assert_eq!(event_add.start_hr, 10);
    assert_eq!(event_add.start_min, 0);
    assert_eq!(event_add.end_hr, 17);
    assert_eq!(event_add.end_min, 59);
}

#[test]
fn fail_construct_event_add() {
    // With invalid end time (60 > 59)
    let event_add = EventAdd::builder()
        .with_name("asdgwaesgd")
        .with_location("asdsdasdasd")
        .with_day(DayOfWeek::Monday)
        .with_start_time(10, 0)
        .with_end_time(12 + 5, 60)
        .try_build();

    assert!(event_add.is_none());
}

#[test]
fn success_construct_enroll_wait() {
    let enroll_add = EnrollWaitAdd::builder()
        .with_section_id("12345")
        .with_grading_option(GradeOption::P)
        .with_unit_count(12)
        .try_build()
        .unwrap();

    assert!(matches!(enroll_add.grading_option, Some(GradeOption::P)));
    assert_eq!(enroll_add.unit_count, Some(12));
    assert_eq!(enroll_add.section_id, "12345");
}

#[test]
fn fail_construct_enroll_wait() {
    let enroll_add = EnrollWaitAdd::builder()
        .with_grading_option(GradeOption::P)
        .with_unit_count(12)
        .try_build();

    assert!(enroll_add.is_none());
}

#[test]
fn enroll_wait_new_has_defaults() {
    let e = EnrollWaitAdd::new("079911");
    assert_eq!(e.section_id, "079911");
    assert!(e.grading_option.is_none());
    assert!(e.unit_count.is_none());
}

#[test]
fn builders_default_to_empty() {
    assert!(EnrollWaitAddBuilder::default().try_build().is_none());
    assert!(PlanAddBuilder::default().try_build().is_none());
    assert!(EventAddBuilder::default().try_build().is_none());
    let plan = PlanAddBuilder::new()
        .with_subject_code("CSE")
        .with_course_code("100")
        .with_section_id("079911")
        .with_section_code("A01")
        .with_unit_count(4)
        .try_build()
        .unwrap();
    assert!(plan.grading_option.is_none());
    assert!(plan.schedule_name.is_none());
}

#[test]
fn event_start_time_out_of_range_is_ignored() {
    let event = EventAdd::builder()
        .with_name("study")
        .with_start_time(24, 0)
        .with_end_time(11, 0)
        .try_build();
    assert!(event.is_none());
    let event = EventAdd::builder()
        .with_name("study")
        .with_start_time(9, 15)
        .with_start_time(-1, 0)
        .with_end_time(11, 0)
        .try_build()
        .unwrap();
    assert_eq!(event.start_hr, 9);
    assert_eq!(event.start_min, 15);
    assert!(event.location.is_none());
    assert!(event.event_days.is_empty());
}

#[test]
fn grade_option_codes() {
    assert_eq!(GradeOption::L.as_str(), "L");
    assert_eq!(GradeOption::S.as_str(), "S");
    assert_eq!(GradeOption::P.as_str(), "P");
}

#[test]
fn search_request_builder_fields() {
    let req = SearchRequestBuilder::new()
        .add_subject("cse")
        .add_subject("toolong")
        .add_course("math 20d")
        .add_department("math")
        .add_department("abcde")
        .set_instructor("Doe, Jane")
        .set_title("data structures")
        .filter_courses_by(CourseLevelFilter::LowerDivision)
        .filter_courses_by(CourseLevelFilter::Lvl500)
        .filter_courses_by(CourseLevelFilter::LowerDivision)
        .apply_day(DayOfWeek::Monday)
        .apply_days(DayOfWeek::Sunday)
        .set_start_time(9, 30)
        .set_end_time(24, 0)
        .only_allow_open();
    assert_eq!(req.subjects, vec!["CSE".to_string()]);
    assert_eq!(req.courses, vec!["math 20d".to_string()]);
    assert_eq!(req.departments, vec!["MATH".to_string()]);
    assert_eq!(req.instructor.as_deref(), Some("Doe, Jane"));
    assert_eq!(req.title.as_deref(), Some("data structures"));
    assert_eq!(req.level_filter, 2049);
    assert_eq!(req.days, 65);
    assert_eq!(req.start_time, Some((9, 30)));
    assert_eq!(req.end_time, None);
    assert!(req.only_open);
    let empty = SearchRequestBuilder::default();
    assert!(empty.subjects.is_empty());
    assert_eq!(empty.level_filter, 0);
    assert!(!empty.only_open);
}

#[test]
fn level_filters_combine_in_any_order() {
    let a = SearchRequestBuilder::new()
        .filter_courses_by(CourseLevelFilter::UpperDivision)
        .filter_courses_by(CourseLevelFilter::Graduate);
    let b = SearchRequestBuilder::new()
        .filter_courses_by(CourseLevelFilter::Graduate)
        .filter_courses_by(CourseLevelFilter::UpperDivision)
        .filter_courses_by(CourseLevelFilter::Graduate);
    assert_eq!(a.level_filter, b.level_filter);
    assert_eq!(a.level_filter, 256 + 32);
    let d1 = SearchRequestBuilder::new().apply_day(DayOfWeek::Tuesday).apply_day(DayOfWeek::Friday);
    let d2 = SearchRequestBuilder::new()
        .apply_day(DayOfWeek::Friday)
        .apply_day(DayOfWeek::Tuesday)
        .apply_day(DayOfWeek::Friday);
    assert_eq!(d1.days, d2.days);
    assert_eq!(d1.days, 32 + 4);
}
