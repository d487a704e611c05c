use webweg::raw_types::{
    RawCoursePrerequisite, RawEvent, RawPrerequisite, RawScheduledMeeting, RawTestPrerequisite,
    RawWebRegMeeting,
};
use webweg::types::{
    CoursePrerequisite, CourseSection, EnrollmentStatus, Meeting, MeetingDay, PrerequisiteInfo,
    ScheduledSection, WrapperError,
};
use webweg::ww_parser::{
    parse_course_info, parse_course_info_or_enrollment_ct, parse_enrollment_count, parse_get_events,
    parse_prerequisites, parse_schedule, try_parse_course_info, try_parse_schedule, CourseInfoType,
};

#[allow(clippy::too_many_arguments)]
fn meeting(
    sect_code: &str,
    section_id: &str,
    display_type: &str,
    meeting_type: &str,
    special: &str,
    day_code: &str,
    start_date: &str,
    times: (i16, i16, i16, i16),
    place: (&str, &str),
    person: &str,
    counts: (i64, i64, i64, i64),
) -> RawWebRegMeeting {
    RawWebRegMeeting {
        day_code: day_code.to_string(),
        section_start_date: "2023-09-28".to_string(),
        start_date: start_date.to_string(),
        start_time_hr: times.0,
        start_time_min: times.1,
        end_time_hr: times.2,
        end_time_min: times.3,
        sect_code: sect_code.to_string(),
        meeting_type: meeting_type.to_string(),
        special_meeting: special.to_string(),
        person_full_name: person.to_string(),
        section_id: section_id.to_string(),
        bldg_code: place.0.to_string(),
        room_code: place.1.to_string(),
        avail_seat: counts.0,
        enrolled_count: counts.1,
        section_capacity: counts.2,
        count_on_waitlist: counts.3,
        display_type: display_type.to_string(),
        needs_waitlist: "N".to_string(),
        print_flag: "Y".to_string(),
    }
}

fn strings(v: &[&str]) -> Vec<String> {
    v.iter().map(|s| s.to_string()).collect()
}

fn m(mt: &str, days: MeetingDay, times: (u32, u32, u32, u32), place: (&str, &str), inst: &[&str]) -> Meeting {
    Meeting {
        meeting_type: mt.to_string(),
        meeting_days: days,
        start_hr: times.0,
        start_min: times.1,
        end_hr: times.2,
        end_min: times.3,
        building: place.0.to_string(),
        room: place.1.to_string(),
        instructors: strings(inst),
    }
}

fn cse101() -> Vec<RawWebRegMeeting> {
    let who = "Bach, Quang Tran    ;A000001";
    vec![
        meeting("A00", "260738", "NC", "LE", "  ", "135", "", (14, 0, 14, 50), ("WLH", "2001"), who, (0, 329, 245, 125)),
        meeting("A00", "260738", "NC", "LE", "MI", "", "2023-10-27", (19, 0, 20, 50), ("GH", "242"), who, (0, 329, 245, 125)),
        meeting("A01", "260739", "AC", "DI", "", "5", "", (16, 0, 16, 50), ("PETER", "108"), who, (-3, 329, 245, 125)),
        meeting("A00", "260738", "NC", "LE", "FI", "", "2023-12-13", (15, 0, 17, 59), ("WLH", "2001"), who, (0, 329, 245, 125)),
    ]
}

#[test]
fn course_info_one_family_one_section() {
    let res = parse_course_info(cse101(), "CSE 101".into()).unwrap();
    let inst = ["Bach, Quang Tran"];
    let expected = vec![CourseSection {
        subj_course_id: "CSE 101".into(),
        section_id: "260739".into(),
        section_code: "A01".into(),
        all_instructors: strings(&inst),
        available_seats: 0,
        enrolled_ct: 329,
        total_seats: 245,
        waitlist_ct: 125,
        meetings: vec![
            m("LE", MeetingDay::Repeated(strings(&["M", "W", "F"])), (14, 0, 14, 50), ("WLH", "2001"), &inst),
            m("MI", MeetingDay::OneTime("2023-10-27".into()), (19, 0, 20, 50), ("GH", "242"), &inst),
            m("FI", MeetingDay::OneTime("2023-12-13".into()), (15, 0, 17, 59), ("WLH", "2001"), &inst),
            m("DI", MeetingDay::Repeated(strings(&["F"])), (16, 0, 16, 50), ("PETER", "108"), &inst),
        ],
        is_visible: true,
    }];
    assert_eq!(expected, res);
}

#[test]
fn course_info_families_sorted_and_lecture_only() {
    let mut ms = vec![
        meeting("B00", "300", "AC", "LE", "", "24", "", (9, 30, 10, 50), ("CENTR", "115"), "Cao, Yingjun ;1", (5, 10, 15, 0)),
        meeting("B00", "300", "AC", "LE", "FI", "", "2023-12-09", (8, 0, 10, 59), ("CENTR", "115"), "Cao, Yingjun ;1", (5, 10, 15, 0)),
    ];
    ms.extend(cse101());
    let res = parse_course_info(ms, "CSE 30".into()).unwrap();
    assert_eq!(res.len(), 2);
    // Family A comes first, though its meetings come later.
    assert_eq!(res[0].section_code, "A01");
    assert_eq!(res[1].section_code, "B00");
    assert_eq!(res[1].section_id, "300");
    assert_eq!(res[1].available_seats, 5);
    assert_eq!(res[1].all_instructors, strings(&["Cao, Yingjun"]));
    assert_eq!(res[1].meetings.len(), 2);
    assert_eq!(res[1].meetings[1].meeting_days, MeetingDay::OneTime("2023-12-09".into()));
}

#[test]
fn course_info_number_sections_and_canceled() {
    let ms = vec![
        meeting("001", " 144434 ", "AC", "SE", "", "13", "", (11, 0, 12, 20), ("EBU3B", "1113"), "Gagnon, Jeffrey C ;9", (0, 15, 15, 0)),
        meeting("002", "144435", "CA", "SE", "", "13", "", (12, 30, 13, 50), ("EBU3B", "1113"), "Gagnon, Jeffrey C ;9", (0, 15, 15, 2)),
        meeting("   ", "144436", "AC", "SE", "", "13", "", (12, 30, 13, 50), ("EBU3B", "1113"), "Gagnon, Jeffrey C ;9", (0, 15, 15, 2)),
    ];
    let res = parse_course_info(ms, "WCWP 10A".into()).unwrap();
    assert_eq!(
        res,
        vec![CourseSection {
            subj_course_id: "WCWP 10A".into(),
            section_id: "144434".into(),
            section_code: "001".into(),
            all_instructors: strings(&["Gagnon, Jeffrey C"]),
            available_seats: 0,
            enrolled_ct: 15,
            total_seats: 15,
            waitlist_ct: 0,
            meetings: vec![m(
                "SE",
                MeetingDay::Repeated(strings(&["M", "W"])),
                (11, 0, 12, 20),
                ("EBU3B", "1113"),
                &["Gagnon, Jeffrey C"],
            )],
            is_visible: true,
        }]
    );
}

#[test]
fn course_info_two_children_merge_instructors() {
    let ms = vec![
        meeting("A00", "1", "NC", "LE", "", "2", "", (8, 0, 9, 20), ("A", "1"), "Zed, Z ;1", (0, 0, 0, 0)),
        meeting("A01", "2", "AC", "DI", "", "3", "", (10, 0, 10, 50), ("B", "2"), "Amy, A ;2", (4, 1, 5, 0)),
        meeting("A02", "3", "AC", "DI", "", "4", "", (11, 0, 11, 50), ("B", "3"), "Zed, Z ;1", (0, 5, 5, 1)),
        meeting("A50", "4", "XX", "LA", "", "4", "", (11, 0, 11, 50), ("B", "3"), "Zed, Z ;1", (0, 5, 5, 1)),
    ];
    let res = parse_course_info(ms, "CSE 8A".into()).unwrap();
    assert_eq!(res.len(), 2);
    assert_eq!(res[0].all_instructors, strings(&["Amy, A", "Zed, Z"]));
    assert_eq!(res[1].all_instructors, strings(&["Zed, Z"]));
    assert_eq!(res[0].meetings.len(), 2);
    assert_eq!(res[0].available_seats, 4);
    assert_eq!(res[1].waitlist_ct, 1);
}

#[test]
fn course_info_bad_time_is_an_error() {
    let ms = vec![meeting("001", "1", "AC", "SE", "", "1", "", (-1, 0, 12, 0), ("A", "1"), "X ;1", (0, 0, 0, 0))];
    assert!(matches!(parse_course_info(ms.clone(), "X 1".into()), Err(WrapperError::BadTimeError)));
    assert!(matches!(try_parse_course_info(ms, "X 1".into()), Some(Err(WrapperError::BadTimeError))));
}

#[test]
fn course_info_undefined_day_code_is_refused() {
    let ms = vec![meeting("001", "1", "AC", "SE", "", "1x", "", (10, 0, 12, 0), ("A", "1"), "X ;1", (0, 0, 0, 0))];
    assert!(try_parse_course_info(ms, "X 1".into()).is_none());
    assert_eq!(try_parse_course_info(vec![], "X 1".into()).unwrap().unwrap(), vec![]);
}

#[test]
fn enrollment_count_keeps_first_of_each_code() {
    let ms = vec![
        meeting("A00", " 10 ", "AC", "LE", "", "1", "", (1, 0, 2, 0), ("A", "1"), "P, Q ;1", (-2, 3, 4, 5)),
        meeting("A00", "10", "AC", "LE", "FI", "", "x", (1, 0, 2, 0), ("A", "1"), "P, Q ;1", (9, 9, 9, 9)),
        meeting("A01", "11", "NC", "DI", "", "1", "", (1, 0, 2, 0), ("A", "1"), "P, Q ;1", (1, 1, 1, 1)),
    ];
    let res = parse_enrollment_count(ms.clone(), "CSE 1".into()).unwrap();
    assert_eq!(
        res,
        vec![CourseSection {
            subj_course_id: "CSE 1".into(),
            section_id: "10".into(),
            section_code: "A00".into(),
            all_instructors: strings(&["P, Q"]),
            available_seats: 0,
            enrolled_ct: 3,
            total_seats: 4,
            waitlist_ct: 5,
            meetings: vec![],
            is_visible: true,
        }]
    );
    let via = parse_course_info_or_enrollment_ct(ms, "CSE 1".into(), CourseInfoType::Count).unwrap();
    assert_eq!(via, res);
    let full = parse_course_info_or_enrollment_ct(cse101(), "CSE 101".into(), CourseInfoType::Full).unwrap();
    assert_eq!(full.len(), 1);
}

#[allow(clippy::too_many_arguments)]
fn scheduled(
    title: &str,
    sect_code: &str,
    meeting_type: &str,
    special: &str,
    day_code: &str,
    start_date: &str,
    times: (i16, i16, i16, i16),
    counts: (Option<i64>, Option<i64>, Option<i64>),
    status: (&str, &str),
) -> RawScheduledMeeting {
    RawScheduledMeeting {
        enrolled_count: counts.0,
        section_capacity: counts.1,
        sect_code: sect_code.to_string(),
        course_title: title.to_string(),
        special_meeting: special.to_string(),
        meeting_type: meeting_type.to_string(),
        day_code: day_code.to_string(),
        start_time_hr: times.0,
        start_time_min: times.1,
        end_time_hr: times.2,
        end_time_min: times.3,
        bldg_code: " YORK ".to_string(),
        room_code: "4050B".to_string(),
        person_full_name: "Staff ;0".to_string(),
        start_date: start_date.to_string(),
        section_id: 185826,
        subj_code: "HILA ".to_string(),
        course_code: " 102".to_string(),
        grade_option: " P ".to_string(),
        sect_credit_hrs: 4,
        enroll_status: status.0.to_string(),
        waitlist_pos: status.1.to_string(),
        count_on_waitlist: counts.2,
    }
}

#[test]
fn schedule_lecture_and_final() {
    let t = "Latin America/Twentieth Centry ";
    let counts = (Some(7), Some(20), Some(0));
    let raw = vec![
        scheduled(t, "A00", "LE", "", "1", "", (12, 30, 13, 50), counts, ("EN", "")),
        scheduled(t, "A00", "LE", "TBA", "2", "", (12, 30, 13, 50), counts, ("EN", "")),
        scheduled(t, "A00", "FI", "FI", "", "2023-09-08", (11, 30, 14, 29), counts, ("EN", "")),
    ];
    let res = parse_schedule(raw).unwrap();
    let inst = ["Staff"];
    assert_eq!(
        res,
        vec![ScheduledSection {
            section_id: "185826".into(),
            subject_code: "HILA".into(),
            course_code: "102".into(),
            course_title: "Latin America/Twentieth Centry".into(),
            section_code: "A00".into(),
            section_capacity: 20,
            enrolled_count: 7,
            available_seats: 13,
            grade_option: " P ".into(),
            all_instructors: strings(&inst),
            units: 4,
            enrolled_status: EnrollmentStatus::Enrolled,
            waitlist_ct: 0,
            meetings: vec![
                m("LE", MeetingDay::Repeated(strings(&["M"])), (12, 30, 13, 50), ("YORK", "4050B"), &inst),
                m("LE", MeetingDay::Repeated(strings(&["Tu"])), (12, 30, 13, 50), ("YORK", "4050B"), &inst),
                m("FI", MeetingDay::OneTime("2023-09-08".into()), (11, 30, 14, 29), ("YORK", "4050B"), &inst),
            ],
        }]
    );
}

#[test]
fn schedule_special_and_waitlist() {
    let raw = vec![
        scheduled("Independent Study", "001", "IN", "", " x ", "", (0, 0, 0, 0), (Some(1), Some(9999), None), ("PL", "")),
        scheduled("ML", "A01", "DI", "", "3", "", (10, 0, 10, 50), (None, None, None), ("WT", "26")),
        scheduled("ML", "A00", "LE", "", "24", "", (9, 0, 9, 50), (Some(90), Some(90), Some(26)), ("WT", "26")),
        scheduled("Gone", "A00", "LE", "", "1", "", (9, 0, 9, 50), (Some(0), Some(0), None), ("EN", "")),
    ];
    let res = parse_schedule(raw).unwrap();
    assert_eq!(res.len(), 2);
    assert_eq!(res[0].course_title, "ML");
    assert_eq!(res[0].section_code, "A01");
    assert_eq!(res[0].available_seats, 0);
    assert_eq!(res[0].enrolled_status, EnrollmentStatus::Waitlist { waitlist_pos: 26 });
    assert_eq!(res[0].waitlist_ct, 26);
    assert_eq!(res[0].meetings.len(), 2);
    assert_eq!(res[0].meetings[0].meeting_type, "LE");
    assert_eq!(res[1].section_code, "001");
    assert_eq!(res[1].section_capacity, 9999);
    assert_eq!(res[1].available_seats, 9998);
    assert_eq!(res[1].grade_option, "P");
    assert_eq!(res[1].enrolled_status, EnrollmentStatus::Planned);
    assert_eq!(res[1].meetings[0].meeting_days, MeetingDay::Repeated(vec![]));
    assert_eq!(res[1].waitlist_ct, 0);
}

#[test]
fn schedule_deformed_and_refused() {
    let no_counts = vec![scheduled("X", "A00", "LE", "", "1", "", (1, 0, 2, 0), (None, None, None), ("EN", ""))];
    match parse_schedule(no_counts) {
        Err(WrapperError::WrapperParsingError(msg)) => assert_eq!(msg, "schedule is deformed"),
        other => panic!("unexpected {other:?}"),
    }
    let no_main = vec![scheduled("X", "A01", "DI", "", "1", "", (1, 0, 2, 0), (Some(1), Some(2), None), ("EN", ""))];
    assert!(try_parse_schedule(no_main).is_none());
    let no_code = vec![scheduled("X", "", "DI", "", "1", "", (1, 0, 2, 0), (Some(1), Some(2), None), ("EN", ""))];
    assert!(try_parse_schedule(no_code).is_none());
    let bad_time = vec![scheduled("X", "A00", "LE", "", "1", "", (1, -5, 2, 0), (Some(1), Some(2), None), ("??", ""))];
    assert!(matches!(parse_schedule(bad_time), Err(WrapperError::BadTimeError)));
    assert_eq!(parse_schedule(vec![]).unwrap(), vec![]);
}

#[test]
fn prerequisites_grouped_by_id() {
    let course = |id: &str, s: &str, c: &str, t: &str| {
        RawPrerequisite::Course(RawCoursePrerequisite {
            subject_code: s.into(),
            prereq_seq_id: id.into(),
            course_code: c.into(),
            course_title: t.into(),
        })
    };
    let raw = vec![
        course("1", "CSE ", " 12", "Basic Data Struct & OO Design"),
        RawPrerequisite::Test(RawTestPrerequisite { test_title: " AP-Math BC ".into() }),
        course("2", "CSE", "15L", "Software Tools&Techniques Lab "),
        course("1", "CSE", "11", "Accel. Intro to Programming"),
    ];
    let res = parse_prerequisites(raw).unwrap();
    assert_eq!(
        res,
        PrerequisiteInfo {
            course_prerequisites: vec![
                vec![
                    CoursePrerequisite::new("CSE 12", "Basic Data Struct & OO Design"),
                    CoursePrerequisite::new("CSE 11", "Accel. Intro to Programming"),
                ],
                vec![CoursePrerequisite::new("CSE 15L", "Software Tools&Techniques Lab")],
            ],
            exam_prerequisites: vec!["AP-Math BC".into()],
        }
    );
    let empty = parse_prerequisites(vec![]).unwrap();
    assert!(empty.course_prerequisites.is_empty() && empty.exam_prerequisites.is_empty());
}

#[test]
fn events_parsed_from_hhmm() {
    let raw = vec![RawEvent {
        location: "Library".into(),
        start_time: "0930".into(),
        end_time: "1745".into(),
        description: "Study".into(),
        days: "1010100".into(),
        time_stamp: "2023-01-01 10:00:00.0".into(),
    }];
    let res = parse_get_events(raw).unwrap();
    assert_eq!(res.len(), 1);
    assert_eq!(res[0].start_hr, 9);
    assert_eq!(res[0].start_min, 30);
    assert_eq!(res[0].end_hr, 17);
    assert_eq!(res[0].end_min, 45);
    assert_eq!(res[0].days, strings(&["M", "W", "F"]));
    assert_eq!(res[0].name, "Study");
    assert_eq!(res[0].location, "Library");
    assert_eq!(res[0].timestamp, "2023-01-01 10:00:00.0");
}

#[test]
fn course_info_special_sections_come_first() {
    let mut ms = vec![meeting("C00", "7", "AC", "LE", "", "1", "", (9, 0, 9, 50), ("A", "1"), "X ;1", (1, 1, 2, 0))];
    ms.extend(cse101());
    ms.push(meeting("002", "8", "AC", "SE", "", "2", "", (9, 0, 9, 50), ("A", "1"), "Y ;2", (1, 1, 2, 0)));
    ms.push(meeting("001", "9", "AC", "SE", "", "3", "", (9, 0, 9, 50), ("A", "1"), "Z ;3", (1, 1, 2, 0)));
    let res = parse_course_info(ms, "CSE 1".into()).unwrap();
    let codes: Vec<&str> = res.iter().map(|s| s.section_code.as_str()).collect();
    assert_eq!(codes, vec!["002", "001", "A01", "C00"]);
    assert!(res.iter().all(|s| s.available_seats >= 0 && !s.meetings.is_empty()));
}

#[test]
fn schedule_overfull_section_has_no_seats() {
    let raw = vec![scheduled("X", "A00", "LE", "", "1", "", (1, 0, 2, 0), (Some(30), Some(20), Some(4)), ("EN", ""))];
    let res = parse_schedule(raw).unwrap();
    assert_eq!(res[0].available_seats, 0);
    assert_eq!(res[0].enrolled_count, 30);
    assert_eq!(res[0].section_capacity, 20);
    assert_eq!(res[0].waitlist_ct, 4);
    assert_eq!(res[0].enrolled_status, EnrollmentStatus::Enrolled);
    let odd = vec![scheduled("X", "A00", "LE", "", "1", "", (1, 0, 2, 0), (Some(1), Some(2), None), ("WT", "x"))];
    assert_eq!(parse_schedule(odd).unwrap()[0].enrolled_status, EnrollmentStatus::Waitlist { waitlist_pos: -1 });
    let unknown = vec![scheduled("X", "A00", "LE", "", "1", "", (1, 0, 2, 0), (Some(1), Some(2), None), ("ZZ", ""))];
    assert_eq!(parse_schedule(unknown).unwrap()[0].enrolled_status, EnrollmentStatus::Unknown);
}
