//! The cleaned-up values that the library hands back, and its error type.
use vstd::prelude::*;

verus! {

/// The generic type is the return value. Otherwise, regardless of request type,
/// we're just returning the error if there is an error.
pub type Result<T> = core::result::Result<T, WrapperError>;

/// The person's schedule.
pub type Schedule = Vec<ScheduledSection>;

/// All courses with the specified subject code & course number.
pub type Courses = Vec<CourseSection>;

/// Represents a search result from WebReg.
pub type SearchResult = Vec<SearchResultItem>;

/// Represents a vector of all events.
pub type Events = Vec<Event>;

/// The type that will be used to represent hours and minutes.
pub type TimeType = u32;

/// The characters of each string of a sequence.
pub open spec fn strs_view(v: Seq<String>) -> Seq<Seq<char>> {
    v.map_values(|s: String| s@)
}

pub proof fn lemma_strs_view_push(v: Seq<String>, x: String)
    ensures
        strs_view(v.push(x)) == strs_view(v).push(x@),
{
    assert(strs_view(v.push(x)) =~= strs_view(v).push(x@));
}

/// Represents a single search result item from WebReg.
#[derive(Debug, Clone, PartialEq, Eq)]
pub struct SearchResultItem {
    /// The subject code. For example, `CSE` or `MATH` are both possible option.
    pub subj_code: String,
    /// The course code. For example, `100B`.
    pub course_code: String,
    /// The course title. For example, `Abstract Algebra II`.
    pub course_title: String,
}

/// A section, which consists of a lecture, usually a discussion, and usually a final.
#[derive(Debug, Clone, PartialEq, Eq)]
pub struct CourseSection {
    /// The subject, course ID. For example, `CSE 100`.
    pub subj_course_id: String,
    /// The section ID. For example, `079912`.
    pub section_id: String,
    /// The section code. For example, `B01`.
    pub section_code: String,
    /// All instructors (i.e., all of the instructors that appear in the `meetings`).
    pub all_instructors: Vec<String>,
    /// The number of available seats.
    pub available_seats: i64,
    /// The number of students enrolled in this section.
    pub enrolled_ct: i64,
    /// The total number of seats.
    pub total_seats: i64,
    /// The waitlist count.
    pub waitlist_ct: i64,
    /// All meetings.
    pub meetings: Vec<Meeting>,
    /// Whether this is visible on WebReg
    pub is_visible: bool,
}

/// The abstract value of a [`CourseSection`].
pub struct CourseSectionView {
    pub subj_course_id: Seq<char>,
    pub section_id: Seq<char>,
    pub section_code: Seq<char>,
    pub all_instructors: Seq<Seq<char>>,
    pub available_seats: i64,
    pub enrolled_ct: i64,
    pub total_seats: i64,
    pub waitlist_ct: i64,
    pub meetings: Seq<MeetingView>,
    pub is_visible: bool,
}

impl View for CourseSection {
    type V = CourseSectionView;

    open spec fn view(&self) -> CourseSectionView {
        CourseSectionView {
            subj_course_id: self.subj_course_id@,
            section_id: self.section_id@,
            section_code: self.section_code@,
            all_instructors: strs_view(self.all_instructors@),
            available_seats: self.available_seats,
            enrolled_ct: self.enrolled_ct,
            total_seats: self.total_seats,
            waitlist_ct: self.waitlist_ct,
            meetings: meetings_view(self.meetings@),
            is_visible: self.is_visible,
        }
    }
}

/// The abstract values of a sequence of sections.
pub open spec fn sections_view(v: Seq<CourseSection>) -> Seq<CourseSectionView> {
    v.map_values(|s: CourseSection| s@)
}

impl CourseSection {
    /// Checks if this section has any seats left.
    ///
    /// This function should be used because, sometimes, WebReg will say that
    /// there are some seats available; however, in reality, no seats are
    /// available and, usually, there is still a waitlist.
    ///
    /// # Returns
    /// `true` if there are seats and `false` otherwise.
    pub fn has_seats(&self) -> (r: bool)
        ensures
            r == (self.available_seats > 0 && self.waitlist_ct == 0),
    {
        self.available_seats > 0 && self.waitlist_ct == 0
    }
}

/// A meeting. Usually represents a lecture, final exam, discussion, and more.
#[derive(Debug, Clone, PartialEq, Eq)]
pub struct Meeting {
    /// The meeting type. For example, this can be `LE`, `FI`, `DI`, etc.
    pub meeting_type: String,
    /// The meeting day(s): either a reoccurring meeting or one-time meeting.
    pub meeting_days: MeetingDay,
    /// The start hour. For example, if the meeting starts at 14:15, this would be `14`.
    pub start_hr: TimeType,
    /// The start minute. For example, if the meeting starts at 14:15, this would be `15`.
    pub start_min: TimeType,
    /// The end hour. For example, if the meeting ends at 15:05, this would be `15`.
    pub end_hr: TimeType,
    /// The end minute. For example, if the meeting ends at 15:05, this would be `5`.
    pub end_min: TimeType,
    /// The building where this meeting will occur, e.g. `CENTR` for `CENTR 115`.
    pub building: String,
    /// The room number where this meeting will occur, e.g. `115` for `CENTR 115`.
    pub room: String,
    /// The instructors assigned to this meeting.
    pub instructors: Vec<String>,
}

/// The abstract value of a [`Meeting`].
pub struct MeetingView {
    pub meeting_type: Seq<char>,
    pub meeting_days: MeetingDayView,
    pub start_hr: u32,
    pub start_min: u32,
    pub end_hr: u32,
    pub end_min: u32,
    pub building: Seq<char>,
    pub room: Seq<char>,
    pub instructors: Seq<Seq<char>>,
}

impl View for Meeting {
    type V = MeetingView;

    open spec fn view(&self) -> MeetingView {
        MeetingView {
            meeting_type: self.meeting_type@,
            meeting_days: self.meeting_days@,
            start_hr: self.start_hr,
            start_min: self.start_min,
            end_hr: self.end_hr,
            end_min: self.end_min,
            building: self.building@,
            room: self.room@,
            instructors: strs_view(self.instructors@),
        }
    }
}

/// The abstract values of a sequence of meetings.
pub open spec fn meetings_view(v: Seq<Meeting>) -> Seq<MeetingView> {
    v.map_values(|m: Meeting| m@)
}

/// An enum that represents the meeting days for a section meeting.
#[derive(Debug, Clone, PartialEq, Eq)]
pub enum MeetingDay {
    /// The meeting is repeated. In this case, each element in the vector will be one of the
    /// following: `M`, `Tu`, `W`, `Th`, `F`, `Sa`, or `Su`.
    Repeated(Vec<String>),
    /// The meeting occurs once. In this case, the string will just be the date representation
    /// in the form `YYYY-MM-DD`.
    OneTime(String),
    /// There is no meeting.
    NoMeeting,
}

/// The abstract value of a [`MeetingDay`].
pub enum MeetingDayView {
    Repeated(Seq<Seq<char>>),
    OneTime(Seq<char>),
    NoMeeting,
}

impl View for MeetingDay {
    type V = MeetingDayView;

    open spec fn view(&self) -> MeetingDayView {
        match self {
            MeetingDay::Repeated(v) => MeetingDayView::Repeated(strs_view(v@)),
            MeetingDay::OneTime(s) => MeetingDayView::OneTime(s@),
            MeetingDay::NoMeeting => MeetingDayView::NoMeeting,
        }
    }
}

/// A section that is currently in your schedule. Note that this can either be a course that you
/// are enrolled in, waitlisted for, or planned.
#[derive(Debug, Clone, PartialEq, Eq)]
pub struct ScheduledSection {
    /// The section ID, for example `79903`.
    pub section_id: String,
    /// The subject code. For example, if this represents `CSE 100`, then this would be `CSE`.
    pub subject_code: String,
    /// The course code. For example, if this represents `CSE 100`, then this would be `100`.
    pub course_code: String,
    /// The course title, for example `Advanced Data Structure`.
    pub course_title: String,
    /// The section code, for example `A01`.
    pub section_code: String,
    /// The section capacity (maximum number of people that can enroll in this section).
    pub section_capacity: i64,
    /// The number of people enrolled in this section.
    pub enrolled_count: i64,
    /// The number of available seats left.
    pub available_seats: i64,
    /// The grading option. This can be one of `L`, `P`, or `S`.
    pub grade_option: String,
    /// All instructors that appear in all of the meetings.
    pub all_instructors: Vec<String>,
    /// The number of units that you are taking this course for.
    pub units: i64,
    /// Your enrollment status.
    pub enrolled_status: EnrollmentStatus,
    /// The number of people on the waitlist.
    pub waitlist_ct: i64,
    /// All relevant meetings for this section.
    pub meetings: Vec<Meeting>,
}

/// The abstract value of a [`ScheduledSection`].
pub struct ScheduledSectionView {
    pub section_id: Seq<char>,
    pub subject_code: Seq<char>,
    pub course_code: Seq<char>,
    pub course_title: Seq<char>,
    pub section_code: Seq<char>,
    pub section_capacity: i64,
    pub enrolled_count: i64,
    pub available_seats: i64,
    pub grade_option: Seq<char>,
    pub all_instructors: Seq<Seq<char>>,
    pub units: i64,
    pub enrolled_status: EnrollmentStatus,
    pub waitlist_ct: i64,
    pub meetings: Seq<MeetingView>,
}

impl View for ScheduledSection {
    type V = ScheduledSectionView;

    open spec fn view(&self) -> ScheduledSectionView {
        ScheduledSectionView {
            section_id: self.section_id@,
            subject_code: self.subject_code@,
            course_code: self.course_code@,
            course_title: self.course_title@,
            section_code: self.section_code@,
            section_capacity: self.section_capacity,
            enrolled_count: self.enrolled_count,
            available_seats: self.available_seats,
            grade_option: self.grade_option@,
            all_instructors: strs_view(self.all_instructors@),
            units: self.units,
            enrolled_status: self.enrolled_status,
            waitlist_ct: self.waitlist_ct,
            meetings: meetings_view(self.meetings@),
        }
    }
}

/// The abstract values of a schedule.
pub open spec fn schedule_view(v: Seq<ScheduledSection>) -> Seq<ScheduledSectionView> {
    v.map_values(|s: ScheduledSection| s@)
}

/// An enum that represents your enrollment status.
#[derive(Debug, Clone, Copy, PartialEq, Eq)]
pub enum EnrollmentStatus {
    Enrolled,
    Waitlist { waitlist_pos: i64 },
    Planned,
    Unknown,
}

/// A prerequisite for a course.
#[derive(Debug, Clone, PartialEq, Eq)]
pub struct PrerequisiteInfo {
    /// Any course prerequisites. This is a vector of vector of prerequisites,
    /// where each vector contains one or more prerequisites. Any prerequisites
    /// in the same vector means that you only need one of those prerequisites to
    /// fulfill that requirement.
    pub course_prerequisites: Vec<Vec<CoursePrerequisite>>,
    /// Any exam prerequisites. If you satisfy one of the exam prerequisites, you
    /// automatically satisfy all of the course prerequisites.
    pub exam_prerequisites: Vec<String>,
}

/// The abstract value of a [`PrerequisiteInfo`].
pub struct PrerequisiteInfoView {
    pub course_prerequisites: Seq<Seq<CoursePrerequisiteView>>,
    pub exam_prerequisites: Seq<Seq<char>>,
}

impl View for PrerequisiteInfo {
    type V = PrerequisiteInfoView;

    open spec fn view(&self) -> PrerequisiteInfoView {
        PrerequisiteInfoView {
            course_prerequisites: self.course_prerequisites@.map_values(
                |g: Vec<CoursePrerequisite>| prereqs_view(g@),
            ),
            exam_prerequisites: strs_view(self.exam_prerequisites@),
        }
    }
}

/// A course prerequisite.
#[derive(Debug, Clone, PartialEq, Eq)]
pub struct CoursePrerequisite {
    /// The subject, course ID. For example, `CSE 100`.
    pub subj_course_id: String,
    /// The course title, for example `Advanced Data Structure`.
    pub course_title: String,
}

/// The abstract value of a [`CoursePrerequisite`].
pub struct CoursePrerequisiteView {
    pub subj_course_id: Seq<char>,
    pub course_title: Seq<char>,
}

impl View for CoursePrerequisite {
    type V = CoursePrerequisiteView;

    open spec fn view(&self) -> CoursePrerequisiteView {
        CoursePrerequisiteView {
            subj_course_id: self.subj_course_id@,
            course_title: self.course_title@,
        }
    }
}

/// The abstract values of a group of prerequisites.
pub open spec fn prereqs_view(v: Seq<CoursePrerequisite>) -> Seq<CoursePrerequisiteView> {
    v.map_values(|p: CoursePrerequisite| p@)
}

impl CoursePrerequisite {
    /// Creates a new `CoursePrerequisite` object with the specified course information.
    ///
    /// # Parameters
    /// - `subj_course_id`: The subject, course ID (e.g., `CSE 100`)
    /// - `course_title`: The course title (e.g., `Advanced Data Structures`).
    ///
    /// # Returns
    /// The new `CoursePrerequisite` object.
    pub fn new(subj_course_id: &str, course_title: &str) -> (r: Self)
        ensures
            r.subj_course_id@ == subj_course_id@,
            r.course_title@ == course_title@,
    {
        Self {
            subj_course_id: crate::text::copy_string(subj_course_id),
            course_title: crate::text::copy_string(course_title),
        }
    }
}

/// An event on WebReg.
#[derive(Debug, Clone, PartialEq, Eq, Hash)]
pub struct Event {
    /// The location of the event.
    pub location: String,
    /// The start hour. For example, if the meeting starts at 14:15, this would be `14`.
    pub start_hr: TimeType,
    /// The start minute. For example, if the meeting starts at 14:15, this would be `15`.
    pub start_min: TimeType,
    /// The end hour. For example, if the meeting ends at 15:05, this would be `15`.
    pub end_hr: TimeType,
    /// The end minute. For example, if the meeting ends at 15:05, this would be `5`.
    pub end_min: TimeType,
    /// The name of the event.
    pub name: String,
    /// The days that this event will occur.
    pub days: Vec<String>,
    /// The time when this event was created. Use this to replace or delete an event.
    pub timestamp: String,
}

/// The abstract value of an [`Event`].
pub struct EventView {
    pub location: Seq<char>,
    pub start_hr: u32,
    pub start_min: u32,
    pub end_hr: u32,
    pub end_min: u32,
    pub name: Seq<char>,
    pub days: Seq<Seq<char>>,
    pub timestamp: Seq<char>,
}

impl View for Event {
    type V = EventView;

    open spec fn view(&self) -> EventView {
        EventView {
            location: self.location@,
            start_hr: self.start_hr,
            start_min: self.start_min,
            end_hr: self.end_hr,
            end_min: self.end_min,
            name: self.name@,
            days: strs_view(self.days@),
            timestamp: self.timestamp@,
        }
    }
}

/// The errors that the library reports.
#[derive(Debug)]
pub enum WrapperError {
    /// Occurs when there was an error parsing the URL.
    UrlParseError(url::ParseError),
    /// Occurs when the given input is not valid.
    InputError(&'static str, &'static str),
    /// Occurs when there was an error with serde. This error will most likely occur
    /// if you attempt to make a request to WebReg but your session isn't valid.
    SerdeError(serde_json::Error),
    /// Occurs when the wrapper encounters a bad status code. This also includes some
    /// context as to why the error may occur, although the context is not cleaned so
    /// it may be very large (e.g., raw HTML).
    BadStatusCode(u16, Option<String>),
    /// Occurs if there's a problem with parsing a time unit (minute or hour). For example,
    /// if hour was a negative value, then you can expect this error to occur.
    BadTimeError,
    /// Occurs when an error from WebReg was returned. These are usually errors relating
    /// to you not being able to perform some operation (e.g, attempting to enroll in a
    /// class that you aren't able to enroll in).
    WebRegError(String),
    /// Occurs if a section that you're trying to look for isn't available.
    SectionIdNotFound(String, SectionIdNotFoundContext),
    /// Occurs if there's an error with the parsing logic.
    WrapperParsingError(String),
    /// Occurs when your cookies may have expired.
    SessionNotValid,
}

/// An enum to be used for giving more context into where the section ID wasn't found.
#[derive(Debug, Clone, Copy, PartialEq, Eq)]
pub enum SectionIdNotFoundContext {
    /// Whether the section ID wasn't found in your schedule (i.e., you didn't enroll in
    /// that section).
    Schedule,
    /// Whether the section ID wasn't found in the catalog (i.e., it's not offered
    /// in the specified term).
    Catalog,
}

/// A term that is available on WebReg.
#[derive(Debug, Clone)]
pub struct Term {
    /// The term ID.
    pub seq_id: i64,
    /// The term code (e.g., `SP23`).
    pub term_code: String,
}

} // verus!
