//! The values that WebReg sends back, field for field, before any cleaning.
use vstd::prelude::*;

verus! {

/// A meeting of a section, as WebReg lists it for a course.
#[derive(Debug, Clone, PartialEq, Eq)]
pub struct RawWebRegMeeting {
    /// The day code (digits `0` through `6`, Sunday first).
    pub day_code: String,
    /// The start date of the section.
    pub section_start_date: String,
    /// The date of a one-time meeting (`YYYY-MM-DD`).
    pub start_date: String,
    /// The start hour.
    pub start_time_hr: i16,
    /// The start minute.
    pub start_time_min: i16,
    /// The end hour.
    pub end_time_hr: i16,
    /// The end minute.
    pub end_time_min: i16,
    /// The section code, e.g. `A01`.
    pub sect_code: String,
    /// The meeting type, e.g. `LE`.
    pub meeting_type: String,
    /// The special meeting code (e.g. `FI` for a final), or blank/`TBA`.
    pub special_meeting: String,
    /// The instructors, in the form `name1 ;pid1:name2 ;pid2:...`.
    pub person_full_name: String,
    /// The section ID.
    pub section_id: String,
    /// The building code.
    pub bldg_code: String,
    /// The room code.
    pub room_code: String,
    /// The number of available seats.
    pub avail_seat: i64,
    /// The number of students enrolled.
    pub enrolled_count: i64,
    /// The section capacity.
    pub section_capacity: i64,
    /// The number of students on the waitlist.
    pub count_on_waitlist: i64,
    /// The display type: `AC` (enrollable), `NC` (not enrollable), `CA` (canceled).
    pub display_type: String,
    /// Whether the section needs a waitlist (`Y` or `N`).
    pub needs_waitlist: String,
    /// Whether the section is printed on WebReg (`N` hides it).
    pub print_flag: String,
}

impl RawWebRegMeeting {
    /// Whether WebReg shows this meeting: it does unless its print flag is `N`.
    pub open spec fn spec_is_visible(&self) -> bool {
        crate::text::trim(self.print_flag@) != seq!['N']
    }

    /// Whether WebReg shows this meeting.
    #[verifier::when_used_as_spec(spec_is_visible)]
    pub fn is_visible(&self) -> (r: bool)
        ensures
            r == self.spec_is_visible(),
    {
        let f = crate::text::trimmed(self.print_flag.as_str());
        proof {
            if f@.len() == 1 && f@[0] == 'N' {
                assert(f@ =~= seq!['N']);
            }
        }
        !(f.len() == 1 && f[0] == 'N')
    }
}

/// A meeting of a section in the person's schedule, as WebReg lists it.
#[derive(Debug, Clone, PartialEq, Eq)]
pub struct RawScheduledMeeting {
    /// The number of students enrolled, if WebReg gives it for this meeting.
    pub enrolled_count: Option<i64>,
    /// The section capacity, if WebReg gives it for this meeting.
    pub section_capacity: Option<i64>,
    /// The section code, e.g. `A01`.
    pub sect_code: String,
    /// The course title.
    pub course_title: String,
    /// The special meeting code (e.g. `FI` for a final), or blank/`TBA`.
    pub special_meeting: String,
    /// The meeting type, e.g. `LE`.
    pub meeting_type: String,
    /// The day code (digits `0` through `6`, Sunday first).
    pub day_code: String,
    /// The start hour.
    pub start_time_hr: i16,
    /// The start minute.
    pub start_time_min: i16,
    /// The end hour.
    pub end_time_hr: i16,
    /// The end minute.
    pub end_time_min: i16,
    /// The building code.
    pub bldg_code: String,
    /// The room code.
    pub room_code: String,
    /// The instructors, in the form `name1 ;pid1:name2 ;pid2:...`.
    pub person_full_name: String,
    /// The date of a one-time meeting (`YYYY-MM-DD`).
    pub start_date: String,
    /// The section ID, which WebReg gives as a number here.
    pub section_id: i64,
    /// The subject code.
    pub subj_code: String,
    /// The course code.
    pub course_code: String,
    /// The grading option.
    pub grade_option: String,
    /// The number of units, as a whole number (WebReg's value with its fraction cut off).
    pub sect_credit_hrs: i64,
    /// The enrollment status: `EN`, `WT` or `PL`.
    pub enroll_status: String,
    /// The position on the waitlist, as text.
    pub waitlist_pos: String,
    /// The number of students on the waitlist, if WebReg gives it for this meeting.
    pub count_on_waitlist: Option<i64>,
}

/// A prerequisite, either a course or an exam.
#[derive(Debug, Clone, PartialEq, Eq)]
pub enum RawPrerequisite {
    Course(RawCoursePrerequisite),
    Test(RawTestPrerequisite),
}

/// A course prerequisite, as WebReg lists it.
#[derive(Debug, Clone, PartialEq, Eq)]
pub struct RawCoursePrerequisite {
    /// The subject code.
    pub subject_code: String,
    /// The ID of the group of courses of which any one satisfies the requirement.
    pub prereq_seq_id: String,
    /// The course code.
    pub course_code: String,
    /// The course title.
    pub course_title: String,
}

/// An exam prerequisite, as WebReg lists it.
#[derive(Debug, Clone, PartialEq, Eq)]
pub struct RawTestPrerequisite {
    /// The name of the exam.
    pub test_title: String,
}

/// An event, as WebReg lists it.
#[derive(Debug, Clone, PartialEq, Eq)]
pub struct RawEvent {
    /// The location of the event.
    pub location: String,
    /// The start time, `HHMM`.
    pub start_time: String,
    /// The end time, `HHMM`.
    pub end_time: String,
    /// The name of the event.
    pub description: String,
    /// The days, as seven `0`/`1` digits starting on Monday.
    pub days: String,
    /// The time stamp that identifies the event.
    pub time_stamp: String,
}

/// A result of a course search, as WebReg lists it.
#[derive(Debug, Clone, PartialEq, Eq)]
pub struct RawWebRegSearchResultItem {
    /// The subject code.
    pub subj_code: String,
    /// The course code.
    pub course_code: String,
    /// The course title.
    pub course_title: String,
}

/// A term, as WebReg lists it.
#[derive(Debug, Clone, PartialEq, Eq)]
pub struct RawTermListItem {
    /// The term ID.
    pub seq_id: i64,
    /// The term code, e.g. `FA23`.
    pub term_code: String,
}

/// A department, as WebReg lists it.
#[derive(Debug, Clone, PartialEq, Eq)]
pub struct RawDepartmentElement {
    /// The department code.
    pub dep_code: String,
}

/// A subject, as WebReg lists it.
#[derive(Debug, Clone, PartialEq, Eq)]
pub struct RawSubjectElement {
    /// The subject code.
    pub subject_code: String,
}

} // verus!
