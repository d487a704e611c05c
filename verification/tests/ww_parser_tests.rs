use webweg::raw_types::{
    RawCoursePrerequisite, RawPrerequisite, RawScheduledMeeting, RawTestPrerequisite, RawWebRegMeeting,
};
use webweg::types::{
    CoursePrerequisite, CourseSection, EnrollmentStatus, Meeting, MeetingDay, PrerequisiteInfo,
    ScheduledSection,
};
use webweg::ww_parser::{parse_course_info, parse_prerequisites, parse_schedule};

// ---------------------------------------------------------------------------
// Prerequisites
// ---------------------------------------------------------------------------

fn sort_prerequisites(prereqs: &mut PrerequisiteInfo) {
    prereqs
        .course_prerequisites
        .iter_mut()
        .for_each(|prereq| prereq.sort_by(|a, b| a.course_title.cmp(&b.course_title)));
    prereqs
        .course_prerequisites
        .sort_by(|a, b| a[0].course_title.cmp(&b[0].course_title));
    prereqs.exam_prerequisites.sort();
}

fn course(id: &str, subj: &str, code: &str, title: &str) -> RawPrerequisite {
    RawPrerequisite::Course(RawCoursePrerequisite {
        subject_code: subj.into(),
        prereq_seq_id: id.into(),
        course_code: code.into(),
        course_title: title.into(),
    })
}

fn exam(title: &str) -> RawPrerequisite {
    RawPrerequisite::Test(RawTestPrerequisite { test_title: title.into() })
}

#[test]
pub fn test_course_single_grouping() {
    let raw_prereqs = vec![
        course("1", "CSE", "8B", "Intro to Programming 2"),
        course("1", "CSE", "11", "Accel. Intro to Programming"),
    ];
    let mut res = parse_prerequisites(raw_prereqs).unwrap();
    let mut expected = PrerequisiteInfo {
        course_prerequisites: vec![vec![
            CoursePrerequisite::new("CSE 8B", "Intro to Programming 2"),
            CoursePrerequisite::new("CSE 11", "Accel. Intro to Programming"),
        ]],
        exam_prerequisites: vec![],
    };
    sort_prerequisites(&mut res);
    sort_prerequisites(&mut expected);
    assert_eq!(expected, res);
}

#[test]
pub fn test_multiple_course_grouping() {
    let raw_prereqs = vec![
        course("1", "CSE", "12", "Basic Data Struct & OO Design"),
        course("2", "CSE", "15L", "Software Tools&Techniques Lab"),
    ];
    let mut res = parse_prerequisites(raw_prereqs).unwrap();
    let mut expected = PrerequisiteInfo {
        course_prerequisites: vec![
            vec![CoursePrerequisite::new("CSE 12", "Basic Data Struct & OO Design")],
            vec![CoursePrerequisite::new("CSE 15L", "Software Tools&Techniques Lab")],
        ],
        exam_prerequisites: vec![],
    };
    sort_prerequisites(&mut res);
    sort_prerequisites(&mut expected);
    assert_eq!(expected, res);
}

#[test]
pub fn test_multiple_course_grouping_many() {
    let raw_prereqs = vec![
        course("1", "CSE", "21", "Math/Algorithm&Systems Analys"),
        course("1", "MATH", "154", "Discrete Math & Graph Theory"),
        course("1", "MATH", "158", "Extremal Combinatorics/Graph"),
        course("1", "MATH", "184", "Enumerative Combinatorics"),
        course("1", "MATH", "188", "Algebraic Combinatorics"),
        course("2", "CSE", "12", "Basic Data Struct & OO Design"),
        course("3", "CSE", "15L", "Software Tools&Techniques Lab"),
        course("4", "CSE", "30", "Computer Organiz&Systms Progrm"),
        course("4", "ECE", "15", "Engineering Computation"),
    ];
    let mut res = parse_prerequisites(raw_prereqs).unwrap();
    let mut expected = PrerequisiteInfo {
        course_prerequisites: vec![
            vec![
                CoursePrerequisite::new("CSE 21", "Math/Algorithm&Systems Analys"),
                CoursePrerequisite::new("MATH 154", "Discrete Math & Graph Theory"),
                CoursePrerequisite::new("MATH 158", "Extremal Combinatorics/Graph"),
                CoursePrerequisite::new("MATH 184", "Enumerative Combinatorics"),
                CoursePrerequisite::new("MATH 188", "Algebraic Combinatorics"),
            ],
            vec![CoursePrerequisite::new("CSE 12", "Basic Data Struct & OO Design")],
            vec![CoursePrerequisite::new("CSE 15L", "Software Tools&Techniques Lab")],
            vec![
                CoursePrerequisite::new("CSE 30", "Computer Organiz&Systms Progrm"),
                CoursePrerequisite::new("ECE 15", "Engineering Computation"),
            ],
        ],
        exam_prerequisites: vec![],
    };
    sort_prerequisites(&mut res);
    sort_prerequisites(&mut expected);
    assert_eq!(expected, res);
}

#[test]
pub fn test_exam_and_course_grouping() {
    let raw_prereqs = vec![course("1", "MATH", "20B", "Calculus/Science & Engineering"), exam("AP-Math BC")];
    let mut res = parse_prerequisites(raw_prereqs).unwrap();
    let mut expected = PrerequisiteInfo {
        course_prerequisites: vec![vec![CoursePrerequisite::new("MATH 20B", "Calculus/Science & Engineering")]],
        exam_prerequisites: vec!["AP-Math BC".into()],
    };
    sort_prerequisites(&mut res);
    sort_prerequisites(&mut expected);
    assert_eq!(expected, res);
}

#[test]
pub fn test_exam_single_grouping() {
    let raw_prereqs = vec![
        exam("ACT Math Subscore"),
        exam("Intermed Algebra Pre-Calc"),
        exam("SAT Math Section Score"),
    ];
    let mut res = parse_prerequisites(raw_prereqs).unwrap();
    let mut expected = PrerequisiteInfo {
        course_prerequisites: vec![],
        exam_prerequisites: vec![
            "ACT Math Subscore".into(),
            "Intermed Algebra Pre-Calc".into(),
            "SAT Math Section Score".into(),
        ],
    };
    sort_prerequisites(&mut res);
    sort_prerequisites(&mut expected);
    assert_eq!(expected, res);
}

// ---------------------------------------------------------------------------
// Schedules
// ---------------------------------------------------------------------------

fn meeting_key(m: &Meeting) -> (String, String) {
    (m.meeting_type.clone(), format!("{m:?}"))
}

fn sort_schedules(sch: &mut [ScheduledSection]) {
    sch.sort_by(|a, b| a.section_id.cmp(&b.section_id));
    sch.iter_mut().for_each(|s| s.meetings.sort_by_key(meeting_key));
}

#[allow(clippy::too_many_arguments)]
fn row(
    base: &RawScheduledMeeting,
    sect_code: &str,
    meeting_type: &str,
    special: &str,
    day_code: &str,
    start_date: &str,
    times: (i16, i16, i16, i16),
    room: &str,
) -> RawScheduledMeeting {
    RawScheduledMeeting {
        sect_code: sect_code.into(),
        meeting_type: meeting_type.into(),
        special_meeting: special.into(),
        day_code: day_code.into(),
        start_date: start_date.into(),
        start_time_hr: times.0,
        start_time_min: times.1,
        end_time_hr: times.2,
        end_time_min: times.3,
        room_code: room.into(),
        ..base.clone()
    }
}

fn meeting(mt: &str, days: MeetingDay, times: (u32, u32, u32, u32), place: (&str, &str), who: &str) -> Meeting {
    Meeting {
        meeting_type: mt.into(),
        meeting_days: days,
        start_hr: times.0,
        start_min: times.1,
        end_hr: times.2,
        end_min: times.3,
        building: place.0.into(),
        room: place.1.into(),
        instructors: vec![who.into()],
    }
}

fn days(d: &[&str]) -> MeetingDay {
    MeetingDay::Repeated(d.iter().map(|s| s.to_string()).collect())
}

#[test]
pub fn test_no_meetings() {
    let raw_schedule = vec![RawScheduledMeeting {
        enrolled_count: Some(1),
        section_capacity: Some(9999),
        sect_code: "001".into(),
        course_title: "Independent Study".into(),
        special_meeting: "".into(),
        meeting_type: "IN".into(),
        day_code: "7".into(),
        start_time_hr: 0,
        start_time_min: 0,
        end_time_hr: 0,
        end_time_min: 0,
        bldg_code: "TBA".into(),
        room_code: "TBA".into(),
        person_full_name: "Sahoo, Debashis    ;A0000001".into(),
        start_date: "2023-09-28".into(),
        section_id: 290181,
        subj_code: "CSE ".into(),
        course_code: "199 ".into(),
        grade_option: "P".into(),
        sect_credit_hrs: 2,
        enroll_status: "PL".into(),
        waitlist_pos: "".into(),
        count_on_waitlist: None,
    }];
    let res = parse_schedule(raw_schedule).unwrap();
    let expected = vec![ScheduledSection {
        section_id: "290181".into(),
        subject_code: "CSE".into(),
        course_code: "199".into(),
        course_title: "Independent Study".into(),
        section_code: "001".into(),
        section_capacity: 9999,
        enrolled_count: 1,
        available_seats: 9998,
        grade_option: "P".into(),
        all_instructors: vec!["Sahoo, Debashis".into()],
        units: 2,
        enrolled_status: EnrollmentStatus::Planned,
        waitlist_ct: 0,
        meetings: vec![Meeting {
            meeting_type: "IN".into(),
            meeting_days: MeetingDay::Repeated(vec![]),
            start_hr: 0,
            start_min: 0,
            end_hr: 0,
            end_min: 0,
            building: "TBA".into(),
            room: "TBA".into(),
            instructors: vec!["Sahoo, Debashis".into()],
        }],
    }];
    assert_eq!(expected, res);
}

#[test]
pub fn test_complex_schedule() {
    let hila = RawScheduledMeeting {
        enrolled_count: Some(7),
        section_capacity: Some(20),
        sect_code: "A00".into(),
        course_title: "Latin America/Twentieth Centry".into(),
        special_meeting: "".into(),
        meeting_type: "LE".into(),
        day_code: "1".into(),
        start_time_hr: 12,
        start_time_min: 30,
        end_time_hr: 13,
        end_time_min: 50,
        bldg_code: "YORK".into(),
        room_code: "4050B".into(),
        person_full_name: "Staff    ;".into(),
        start_date: "2023-08-07".into(),
        section_id: 185826,
        subj_code: "HILA".into(),
        course_code: "102".into(),
        grade_option: "P".into(),
        sect_credit_hrs: 4,
        enroll_status: "EN".into(),
        waitlist_pos: "".into(),
        count_on_waitlist: Some(0),
    };
    let cogs = RawScheduledMeeting {
        enrolled_count: Some(90),
        section_capacity: Some(90),
        sect_code: "A00".into(),
        course_title: "Intro to Machine Learning".into(),
        special_meeting: "".into(),
        meeting_type: "LE".into(),
        day_code: "1".into(),
        start_time_hr: 17,
        start_time_min: 0,
        end_time_hr: 19,
        end_time_min: 50,
        bldg_code: "RCLAS".into(),
        room_code: "R01".into(),
        person_full_name: "Gupta, Anjum    ;A0000002".into(),
        start_date: "2023-08-07".into(),
        section_id: 184959,
        subj_code: "COGS".into(),
        course_code: "118B".into(),
        grade_option: "L".into(),
        sect_credit_hrs: 4,
        enroll_status: "WT".into(),
        waitlist_pos: "26".into(),
        count_on_waitlist: Some(26),
    };
    let raw_schedule = vec![
        row(&hila, "A00", "LE", "", "1", "2023-08-07", (12, 30, 13, 50), "4050B"),
        row(&hila, "A00", "LE", "", "2", "2023-08-07", (12, 30, 13, 50), "4050B"),
        row(&hila, "A00", "LE", "", "3", "2023-08-07", (12, 30, 13, 50), "4050B"),
        row(&hila, "A00", "LE", "", "4", "2023-08-07", (12, 30, 13, 50), "4050B"),
        row(&hila, "A00", "FI", "FI", "5", "2023-09-08", (11, 30, 14, 29), "4050B"),
        row(&cogs, "A00", "LE", "", "1", "2023-08-07", (17, 0, 19, 50), "R01"),
        row(&cogs, "A00", "LE", "", "3", "2023-08-07", (17, 0, 19, 50), "R01"),
        row(&cogs, "A00", "FI", "FI", "5", "2023-09-08", (19, 0, 21, 59), "R01"),
        row(&cogs, "A01", "DI", "", "1", "2023-08-07", (16, 0, 16, 50), "R02"),
        row(&cogs, "A01", "DI", "", "3", "2023-08-07", (16, 0, 16, 50), "R02"),
    ];
    let mut res = parse_schedule(raw_schedule).unwrap();
    let staff = "Staff";
    let hila_place = ("YORK", "4050B");
    let gupta = "Gupta, Anjum";
    let mut expected = vec![
        ScheduledSection {
            section_id: "185826".into(),
            subject_code: "HILA".into(),
            course_code: "102".into(),
            course_title: "Latin America/Twentieth Centry".into(),
            section_code: "A00".into(),
            section_capacity: 20,
            enrolled_count: 7,
            available_seats: 13,
            grade_option: "P".into(),
            all_instructors: vec!["Staff".into()],
            units: 4,
            enrolled_status: EnrollmentStatus::Enrolled,
            waitlist_ct: 0,
            meetings: vec![
                meeting("LE", days(&["M"]), (12, 30, 12 + 1, 50), hila_place, staff),
                meeting("LE", days(&["Tu"]), (12, 30, 12 + 1, 50), hila_place, staff),
                meeting("LE", days(&["W"]), (12, 30, 12 + 1, 50), hila_place, staff),
                meeting("LE", days(&["Th"]), (12, 30, 12 + 1, 50), hila_place, staff),
                meeting("FI", MeetingDay::OneTime("2023-09-08".into()), (11, 30, 12 + 2, 29), hila_place, staff),
            ],
        },
        ScheduledSection {
            section_id: "184959".into(),
            subject_code: "COGS".into(),
            course_code: "118B".into(),
            course_title: "Intro to Machine Learning".into(),
            section_code: "A01".into(),
            section_capacity: 90,
            enrolled_count: 90,
            available_seats: 0,
            grade_option: "L".into(),
            all_instructors: vec!["Gupta, Anjum".into()],
            units: 4,
            enrolled_status: EnrollmentStatus::Waitlist { waitlist_pos: 26 },
            waitlist_ct: 26,
            meetings: vec![
                meeting("LE", days(&["M"]), (12 + 5, 0, 12 + 7, 50), ("RCLAS", "R01"), gupta),
                meeting("LE", days(&["W"]), (12 + 5, 0, 12 + 7, 50), ("RCLAS", "R01"), gupta),
                meeting("FI", MeetingDay::OneTime("2023-09-08".into()), (12 + 7, 0, 12 + 9, 59), ("RCLAS", "R01"), gupta),
                meeting("DI", days(&["M"]), (12 + 4, 0, 12 + 4, 50), ("RCLAS", "R02"), gupta),
                meeting("DI", days(&["W"]), (12 + 4, 0, 12 + 4, 50), ("RCLAS", "R02"), gupta),
            ],
        },
    ];
    sort_schedules(&mut expected);
    sort_schedules(&mut res);
    assert_eq!(expected, res);
}

// ---------------------------------------------------------------------------
// Course listings
// ---------------------------------------------------------------------------

fn sort_course_sections(sections: &mut [CourseSection]) {
    sections.sort_by(|a, b| a.section_id.cmp(&b.section_id));
    sections.iter_mut().for_each(|s| s.meetings.sort_by_key(meeting_key));
}

#[allow(clippy::too_many_arguments)]
fn listing(
    sect_code: &str,
    section_id: &str,
    display_type: &str,
    meeting_type: &str,
    special: &str,
    day_code: &str,
    start_date: &str,
    times: (i16, i16, i16, i16),
    place: (&str, &str),
    person: &str,
    counts: (i64, i64, i64, i64),
) -> RawWebRegMeeting {
    RawWebRegMeeting {
        day_code: day_code.into(),
        section_start_date: "2023-09-28".into(),
        start_date: start_date.into(),
        start_time_hr: times.0,
        start_time_min: times.1,
        end_time_hr: times.2,
        end_time_min: times.3,
        sect_code: sect_code.into(),
        meeting_type: meeting_type.into(),
        special_meeting: special.into(),
        person_full_name: person.into(),
        section_id: section_id.into(),
        bldg_code: place.0.into(),
        room_code: place.1.into(),
        avail_seat: counts.0,
        enrolled_count: counts.1,
        section_capacity: counts.2,
        count_on_waitlist: counts.3,
        display_type: display_type.into(),
        needs_waitlist: "N".into(),
        print_flag: "Y".into(),
    }
}

#[test]
pub fn test_one_section_family_one_section() {
    let who = "Bach, Quang Tran    ;A0000003";
    let lec = (0, 329, 245, 125);
    let raw_schedule = vec![
        listing("A00", "260738", "NC", "LE", "  ", "135", "", (14, 0, 14, 50), ("WLH", "2001"), who, lec),
        listing("A00", "260738", "NC", "LE", "MI", "", "2023-10-27", (19, 0, 20, 50), ("GH", "242"), who, lec),
        listing("A00", "260738", "NC", "LE", "MI", "", "2023-11-17", (19, 0, 20, 50), ("YORK", "2722"), who, lec),
        listing("A00", "260738", "NC", "LE", "FI", "", "2023-12-13", (15, 0, 17, 59), ("WLH", "2001"), who, lec),
        listing("A01", "260739", "AC", "DI", "", "5", "", (16, 0, 16, 50), ("PETER", "108"), who, (-84, 329, 245, 125)),
    ];
    let mut res = parse_course_info(raw_schedule, "CSE 101".into()).unwrap();
    let bach = "Bach, Quang Tran";
    let mut expected = vec![CourseSection {
        subj_course_id: "CSE 101".into(),
        section_id: "260739".into(),
        section_code: "A01".into(),
        all_instructors: vec!["Bach, Quang Tran".into()],
        available_seats: 0,
        enrolled_ct: 329,
        total_seats: 245,
        waitlist_ct: 125,
        meetings: vec![
            meeting("LE", days(&["M", "W", "F"]), (12 + 2, 0, 12 + 2, 50), ("WLH", "2001"), bach),
            meeting("DI", days(&["F"]), (12 + 4, 0, 12 + 4, 50), ("PETER", "108"), bach),
            meeting("MI", MeetingDay::OneTime("2023-10-27".into()), (12 + 7, 0, 12 + 8, 50), ("GH", "242"), bach),
            meeting("MI", MeetingDay::OneTime("2023-11-17".into()), (12 + 7, 0, 12 + 8, 50), ("YORK", "2722"), bach),
            meeting("FI", MeetingDay::OneTime("2023-12-13".into()), (12 + 3, 0, 12 + 5, 59), ("WLH", "2001"), bach),
        ],
        is_visible: true,
    }];
    sort_course_sections(&mut res);
    sort_course_sections(&mut expected);
    assert_eq!(expected, res);
}

#[test]
pub fn test_two_section_family_one_section() {
    let chin = "Chin, Bryan W.    ;A0000004";
    let cao = "Cao, Yingjun    ;A0000005";
    let a = (0, 152, 100, 53);
    let b = (0, 127, 100, 29);
    let raw_schedule = vec![
        listing("A00", "260734", "NC", "LE", "", "24", "", (12, 30, 13, 50), ("FAH", "1301"), chin, a),
        listing("A00", "260734", "NC", "LE", "MI", "", "2023-10-26", (20, 0, 21, 50), ("MOS", "0113"), chin, a),
        listing("A00", "260734", "NC", "LE", "FI", "", "2023-12-09", (11, 30, 14, 29), ("MOS", "0113"), chin, a),
        listing("A01", "260735", "AC", "DI", "", "3", "", (18, 0, 18, 50), ("FAH", "1301"), chin, (-52, 152, 100, 53)),
        listing("B00", "249207", "NC", "LE", "", "24", "", (8, 0, 9, 20), ("LEDDN", "AUD"), cao, b),
        listing("B00", "249207", "NC", "LE", "MI", "", "2023-10-26", (20, 0, 21, 50), ("MOS", "0114"), cao, b),
        listing("B00", "249207", "NC", "LE", "FI", "", "2023-12-09", (11, 30, 14, 29), ("MOS", "0114"), cao, b),
        listing("B01", "249208", "AC", "DI", "", "3", "", (17, 0, 17, 50), ("FAH", "1301"), cao, (-27, 127, 100, 29)),
    ];
    let mut res = parse_course_info(raw_schedule, "CSE 30".into()).unwrap();
    let chin_n = "Chin, Bryan W.";
    let cao_n = "Cao, Yingjun";
    let mut expected = vec![
        CourseSection {
            subj_course_id: "CSE 30".into(),
            section_id: "260735".into(),
            section_code: "A01".into(),
            all_instructors: vec!["Chin, Bryan W.".into()],
            available_seats: 0,
            enrolled_ct: 152,
            total_seats: 100,
            waitlist_ct: 53,
            meetings: vec![
                meeting("LE", days(&["Tu", "Th"]), (12, 30, 12 + 1, 50), ("FAH", "1301"), chin_n),
                meeting("DI", days(&["W"]), (12 + 6, 0, 12 + 6, 50), ("FAH", "1301"), chin_n),
                meeting("MI", MeetingDay::OneTime("2023-10-26".into()), (12 + 8, 0, 12 + 9, 50), ("MOS", "0113"), chin_n),
                meeting("FI", MeetingDay::OneTime("2023-12-09".into()), (11, 30, 12 + 2, 29), ("MOS", "0113"), chin_n),
            ],
            is_visible: true,
        },
        CourseSection {
            subj_course_id: "CSE 30".into(),
            section_id: "249208".into(),
            section_code: "B01".into(),
            all_instructors: vec!["Cao, Yingjun".into()],
            available_seats: 0,
            enrolled_ct: 127,
            total_seats: 100,
            waitlist_ct: 29,
            meetings: vec![
                meeting("LE", days(&["Tu", "Th"]), (8, 0, 9, 20), ("LEDDN", "AUD"), cao_n),
                meeting("DI", days(&["W"]), (12 + 5, 0, 12 + 5, 50), ("FAH", "1301"), cao_n),
                meeting("MI", MeetingDay::OneTime("2023-10-26".into()), (12 + 8, 0, 12 + 9, 50), ("MOS", "0114"), cao_n),
                meeting("FI", MeetingDay::OneTime("2023-12-09".into()), (11, 30, 12 + 2, 29), ("MOS", "0114"), cao_n),
            ],
            is_visible: true,
        },
    ];
    sort_course_sections(&mut res);
    sort_course_sections(&mut expected);
    assert_eq!(expected, res);
}

#[test]
pub fn test_one_section_family_canceled_one() {
    let who = "Pollack, Aaron    ;A0000006";
    let lec = (0, 31, 52, 0);
    let raw_schedule = vec![
        listing("A00", "142033", "NC", "LE", "", "135", "", (12, 0, 12, 50), ("WLH", "2204"), who, lec),
        listing("A00", "142033", "NC", "LE", "FI", "", "2023-06-14", (11, 30, 14, 29), ("WLH", "2204"), who, lec),
        listing("A01", "142034", "AC", "DI", "", "2", "", (9, 0, 9, 50), ("APM", "B412"), who, (9, 18, 27, 0)),
        listing("A02", "142035", "CA", "DI", "", "2", "", (10, 0, 10, 50), ("APM", "B412"), who, (0, 0, 0, 0)),
        listing("A03", "254672", "AC", "DI", "", "2", "", (8, 0, 8, 50), ("APM", "B412"), who, (12, 13, 25, 0)),
    ];
    let mut res = parse_course_info(raw_schedule, "MATH 100C".into()).unwrap();
    let p = "Pollack, Aaron";
    let lecture = || meeting("LE", days(&["M", "W", "F"]), (12, 0, 12, 50), ("WLH", "2204"), p);
    let fin = || meeting("FI", MeetingDay::OneTime("2023-06-14".into()), (11, 30, 12 + 2, 29), ("WLH", "2204"), p);
    let mut expected = vec![
        CourseSection {
            subj_course_id: "MATH 100C".into(),
            section_id: "142034".into(),
            section_code: "A01".into(),
            all_instructors: vec!["Pollack, Aaron".into()],
            available_seats: 9,
            enrolled_ct: 18,
            total_seats: 27,
            waitlist_ct: 0,
            meetings: vec![lecture(), meeting("DI", days(&["Tu"]), (9, 0, 9, 50), ("APM", "B412"), p), fin()],
            is_visible: true,
        },
        CourseSection {
            subj_course_id: "MATH 100C".into(),
            section_id: "254672".into(),
            section_code: "A03".into(),
            all_instructors: vec!["Pollack, Aaron".into()],
            available_seats: 12,
            enrolled_ct: 13,
            total_seats: 25,
            waitlist_ct: 0,
            meetings: vec![lecture(), meeting("DI", days(&["Tu"]), (8, 0, 8, 50), ("APM", "B412"), p), fin()],
            is_visible: true,
        },
    ];
    sort_course_sections(&mut res);
    sort_course_sections(&mut expected);
    assert_eq!(expected, res);
}

#[test]
pub fn test_number_sections() {
    let gagnon = "Gagnon, Jeffrey C    ;A0000007";
    let susi = "Susi, Natalie    ;A0000008";
    let ornelas = "Ornelas, Tricia    ;A0000009";
    let se = |code: &str, id: &str, dc: &str, t: (i16, i16, i16, i16), place: (&str, &str), who: &str, c: (i64, i64, i64, i64)| {
        listing(code, id, "AC", "SE", "", dc, "", t, place, who, c)
    };
    let raw_schedule = vec![
        se("001", "144434", "13", (11, 0, 12, 20), ("EBU3B", "1113"), gagnon, (0, 15, 15, 0)),
        se("002", "144435", "13", (12, 30, 13, 50), ("EBU3B", "1113"), gagnon, (0, 15, 15, 2)),
        listing("010", "144436", "CA", "SE", "", "13", "", (8, 0, 9, 20), ("EBU3B", "1113"), gagnon, (0, 0, 0, 0)),
        se("003", "144437", "24", (9, 30, 10, 50), ("EBU3B", "1113"), gagnon, (0, 15, 15, 1)),
        se("004", "144438", "24", (11, 0, 12, 20), ("EBU3B", "1113"), gagnon, (0, 15, 15, 2)),
        se("005", "144439", "24", (9, 30, 10, 50), ("SOLIS", "105"), susi, (1, 19, 20, 0)),
        se("006", "144440", "13", (12, 30, 13, 50), ("EBU3B", "1124"), gagnon, (-1, 20, 20, 1)),
        se("007", "144441", "24", (8, 0, 9, 20), ("WSAC", "138"), ornelas, (0, 20, 20, 1)),
        se("008", "144442", "24", (9, 30, 10, 50), ("WSAC", "138"), ornelas, (0, 20, 20, 0)),
        se("009", "144443", "24", (12, 30, 13, 50), ("WSAC", "138"), ornelas, (0, 20, 20, 1)),
    ];
    let mut res = parse_course_info(raw_schedule, "WCWP 10A".into()).unwrap();
    let section = |id: &str, code: &str, who: &str, c: (i64, i64, i64, i64), m: Meeting| CourseSection {
        subj_course_id: "WCWP 10A".into(),
        section_id: id.into(),
        section_code: code.into(),
        all_instructors: vec![who.into()],
        available_seats: c.0,
        enrolled_ct: c.1,
        total_seats: c.2,
        waitlist_ct: c.3,
        meetings: vec![m],
        is_visible: true,
    };
    let g = "Gagnon, Jeffrey C";
    let s = "Susi, Natalie";
    let o = "Ornelas, Tricia";
    let mw = || days(&["M", "W"]);
    let tt = || days(&["Tu", "Th"]);
    let mut expected = vec![
        section("144434", "001", g, (0, 15, 15, 0), meeting("SE", mw(), (11, 0, 12, 20), ("EBU3B", "1113"), g)),
        section("144435", "002", g, (0, 15, 15, 2), meeting("SE", mw(), (12, 30, 12 + 1, 50), ("EBU3B", "1113"), g)),
        section("144437", "003", g, (0, 15, 15, 1), meeting("SE", tt(), (9, 30, 10, 50), ("EBU3B", "1113"), g)),
        section("144438", "004", g, (0, 15, 15, 2), meeting("SE", tt(), (11, 0, 12, 20), ("EBU3B", "1113"), g)),
        section("144439", "005", s, (1, 19, 20, 0), meeting("SE", tt(), (9, 30, 10, 50), ("SOLIS", "105"), s)),
        section("144440", "006", g, (0, 20, 20, 1), meeting("SE", mw(), (12, 30, 12 + 1, 50), ("EBU3B", "1124"), g)),
        section("144441", "007", o, (0, 20, 20, 1), meeting("SE", tt(), (8, 0, 9, 20), ("WSAC", "138"), o)),
        section("144442", "008", o, (0, 20, 20, 0), meeting("SE", tt(), (9, 30, 10, 50), ("WSAC", "138"), o)),
        section("144443", "009", o, (0, 20, 20, 1), meeting("SE", tt(), (12, 30, 12 + 1, 50), ("WSAC", "138"), o)),
    ];
    sort_course_sections(&mut res);
    sort_course_sections(&mut expected);
    assert_eq!(expected, res);
}
