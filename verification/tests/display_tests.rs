use webweg::types::{
    CourseSection, EnrollmentStatus, Event, Meeting, MeetingDay, ScheduledSection, SearchResultItem,
    SectionIdNotFoundContext,
};

fn lecture() -> Meeting {
    Meeting {
        meeting_type: "LE".into(),
        meeting_days: MeetingDay::Repeated(vec!["M".into(), "W".into(), "F".into()]),
        start_hr: 14,
        start_min: 0,
        end_hr: 14,
        end_min: 50,
        building: "WLH".into(),
        room: "2001".into(),
        instructors: vec!["Bach, Quang Tran".into()],
    }
}

#[test]
fn meeting_text() {
    assert_eq!(lecture().to_string(), "[LE] MWF at 14:00 - 14:50 in WLH 2001\n");
    let mut m = lecture();
    m.meeting_days = MeetingDay::OneTime("2023-12-13".into());
    m.start_min = 5;
    assert_eq!(m.to_string(), "[LE] 2023-12-13 at 14:05 - 14:50 in WLH 2001\n");
    m.meeting_days = MeetingDay::NoMeeting;
    assert_eq!(m.to_string(), "[LE] N/A at 14:05 - 14:50 in WLH 2001\n");
}

#[test]
fn section_text() {
    let s = CourseSection {
        subj_course_id: "CSE 101".into(),
        section_id: "260739".into(),
        section_code: "A01".into(),
        all_instructors: vec!["A".into(), "B".into()],
        available_seats: 2,
        enrolled_ct: 3,
        total_seats: 5,
        waitlist_ct: 0,
        meetings: vec![lecture()],
        is_visible: true,
    };
    assert_eq!(
        s.to_string(),
        "[A01 / 260739] CSE 101\n\tInstructors: [A, B]\n\tEnrolled: 3\n\tAvailable: 2\n\tWaitlist: 0\n\
\tTotal Seats: 5\n\tCan Enroll? true\n\tMeeting Information:\n\t\t[LE] MWF at 14:00 - 14:50 in WLH 2001\n"
    );
}

#[test]
fn scheduled_text() {
    let s = ScheduledSection {
        section_id: "184959".into(),
        subject_code: "COGS".into(),
        course_code: "118B".into(),
        course_title: "Intro to Machine Learning".into(),
        section_code: "A01".into(),
        section_capacity: 90,
        enrolled_count: 90,
        available_seats: 0,
        grade_option: "L".into(),
        all_instructors: vec!["Gupta, Anjum".into()],
        units: 4,
        enrolled_status: EnrollmentStatus::Waitlist { waitlist_pos: 26 },
        waitlist_ct: 26,
        meetings: vec![],
    };
    assert_eq!(
        s.to_string(),
        "[A01 / 184959] A01 118B: Intro to Machine Learning\n\tInstructors: [Gupta, Anjum]\n\
\tCourse Enrollment Information:\n\t\tEnrolled: 90\n\t\tAvailable: 0\n\t\tWaitlist: 26\n\t\tTotal Seats: 90\n\
\tEnrollment Information:\n\t\tStatus: Waitlisted (Position 26)\n\t\tUnits: 4\n\t\tGrade Option: L\n\
\tMeeting Information:\n"
    );
}

#[test]
fn event_and_small_texts() {
    let e = Event {
        location: "Gym".into(),
        start_hr: 7,
        start_min: 5,
        end_hr: 9,
        end_min: 30,
        name: "Lift".into(),
        days: vec!["M".into(), "Th".into()],
        timestamp: "ts".into(),
    };
    assert_eq!(
        e.to_string(),
        "[Event] Lift\n\tLocation: Gym\n\tDay of Week: MTh\n\tTime: 7:05 - 9:30\n\tTimestamp: ts\n"
    );
    let r = SearchResultItem { subj_code: "CSE".into(), course_code: "100".into(), course_title: "ADS".into() };
    assert_eq!(r.to_string(), "CSE 100 - ADS\n");
    assert_eq!(SectionIdNotFoundContext::Catalog.to_string(), "Offered");
    assert_eq!(SectionIdNotFoundContext::Schedule.to_string(), "Schedule");
}
