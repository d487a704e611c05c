//! The inputs of requests: what to enroll in, plan or add as an event, and how
//! to search for courses.
use vstd::prelude::*;
use vstd::string::StringSliceAdditionalSpecFns;

use crate::text::{copy_string, upper_text, uppercase};
use crate::types::strs_view;
use crate::util::{binary_day_name, binary_days_upto, spec_binary_days};

verus! {

// ---------------------------------------------------------------------------
// Grading options and add types
// ---------------------------------------------------------------------------

/// The possible grading options.
#[derive(PartialOrd, PartialEq, Eq, Debug, Clone, Copy)]
pub enum GradeOption {
    /// S/U grading (Satisfactory/Unsatisfactory) option.
    S,
    /// P/NP grading (Pass/No Pass) option.
    P,
    /// Letter grading option.
    L,
}

/// The one-letter code of a grading option.
pub open spec fn grade_code(g: GradeOption) -> Seq<char> {
    match g {
        GradeOption::L => seq!['L'],
        GradeOption::S => seq!['S'],
        GradeOption::P => seq!['P'],
    }
}

impl GradeOption {
    /// Gets the (static) string representation of this `enum`.
    ///
    /// # Returns
    /// The static string representation.
    pub fn as_str(&self) -> (r: &'static str)
        ensures
            r@ == grade_code(*self),
    {
        proof {
            reveal_strlit("L");
            reveal_strlit("S");
            reveal_strlit("P");
        }
        match self {
            GradeOption::L => "L",
            GradeOption::S => "S",
            GradeOption::P => "P",
        }
    }
}

/// An enum that represents how a course should be added to the person's schedule when
/// calling the corresponding `add_section` method (and associated methods).
#[derive(PartialEq, Eq, Debug, Clone, Copy)]
pub enum AddType {
    /// Indicates that the user wants to enroll into the section.
    Enroll,
    /// Indicates that the user wants to waitlist the section.
    Waitlist,
    /// Have the library check whether the user should enroll or waitlist.
    DecideForMe,
}

/// An enum that's similar to `AddType`, but explicitly only allows `Enroll` or `Waitlist`
/// actions.
#[derive(PartialEq, Eq, Debug, Clone, Copy)]
pub enum ExplicitAddType {
    /// Indicates that the user wants to enroll into the section.
    Enroll,
    /// Indicates that the user wants to waitlist the section.
    Waitlist,
}

// ---------------------------------------------------------------------------
// Enrolling and waitlisting
// ---------------------------------------------------------------------------

/// Use this struct to add more information regarding the section that you want to enroll/waitlist
/// in.
pub struct EnrollWaitAdd {
    /// The section ID. For example, `0123123`.
    pub section_id: String,
    /// The grading option. Can either be L, P, or S.
    /// If None is specified, this uses the default option.
    pub grading_option: Option<GradeOption>,
    /// The number of units. If none is specified, this
    /// uses the default unit count.
    pub unit_count: Option<u8>,
}

impl EnrollWaitAdd {
    /// Creates a new builder for the `EnrollWaitAdd` structure.
    ///
    /// # Returns
    /// The builder.
    pub fn builder() -> (r: EnrollWaitAddBuilder)
        ensures
            r@ == (EnrollWaitAddBuilderView { section_id: None, grading_option: None, unit_count: None }),
    {
        EnrollWaitAddBuilder::new()
    }

    /// Creates a new `EnrollWaitAdd` structure with the specified `section_id` and default grading
    /// option and unit count.
    ///
    /// # Parameters
    /// - `section_id`: The section ID.
    ///
    /// # Returns
    /// The structure.
    pub fn new(section_id: &str) -> (r: Self)
        ensures
            r.section_id@ == section_id@,
            r.grading_option is None,
            r.unit_count is None,
    {
        EnrollWaitAdd { section_id: copy_string(section_id), grading_option: None, unit_count: None }
    }
}

/// A builder of [`EnrollWaitAdd`].
pub struct EnrollWaitAddBuilder {
    section_id: Option<String>,
    grading_option: Option<GradeOption>,
    unit_count: Option<u8>,
}

/// What an [`EnrollWaitAddBuilder`] has been given so far.
pub struct EnrollWaitAddBuilderView {
    pub section_id: Option<Seq<char>>,
    pub grading_option: Option<GradeOption>,
    pub unit_count: Option<u8>,
}

/// The characters of an optional string.
pub open spec fn opt_view(s: Option<String>) -> Option<Seq<char>> {
    match s {
        Some(x) => Some(x@),
        None => None,
    }
}

impl View for EnrollWaitAddBuilder {
    type V = EnrollWaitAddBuilderView;

    closed spec fn view(&self) -> EnrollWaitAddBuilderView {
        EnrollWaitAddBuilderView {
            section_id: opt_view(self.section_id),
            grading_option: self.grading_option,
            unit_count: self.unit_count,
        }
    }
}

impl EnrollWaitAddBuilder {
    /// Creates a new builder with nothing set.
    pub fn new() -> (r: Self)
        ensures
            r@ == (EnrollWaitAddBuilderView { section_id: None, grading_option: None, unit_count: None }),
    {
        EnrollWaitAddBuilder { section_id: None, grading_option: None, unit_count: None }
    }

    /// Sets the section ID for this builder. For example, `0123123` is a possible section ID.
    ///
    /// # Parameters
    /// - `section_id`: The section ID.
    ///
    /// # Returns
    /// The builder.
    pub fn with_section_id(self, section_id: &str) -> (r: Self)
        ensures
            r@ == (EnrollWaitAddBuilderView { section_id: Some(section_id@), ..self@ }),
    {
        EnrollWaitAddBuilder { section_id: Some(copy_string(section_id)), ..self }
    }

    /// Sets the grading option (L, P/NP, S/U) for this builder.
    ///
    /// # Parameters
    /// - `grading_option`: The grading option.
    ///
    /// # Returns
    /// The builder.
    pub fn with_grading_option(self, grading_option: GradeOption) -> (r: Self)
        ensures
            r@ == (EnrollWaitAddBuilderView { grading_option: Some(grading_option), ..self@ }),
    {
        EnrollWaitAddBuilder { grading_option: Some(grading_option), ..self }
    }

    /// Sets the number of units for this builder.
    ///
    /// # Parameters
    /// - `units`: The number of units.
    ///
    /// # Returns
    /// The builder.
    pub fn with_unit_count(self, units: u8) -> (r: Self)
        ensures
            r@ == (EnrollWaitAddBuilderView { unit_count: Some(units), ..self@ }),
    {
        EnrollWaitAddBuilder { unit_count: Some(units), ..self }
    }

    /// Tries to build the `EnrollWaitAdd` object.
    ///
    /// # Returns
    /// The result of constructing this `EnrollWaitAdd` object. It is guaranteed that this will
    /// result the `EnrollWaitAdd` object if the section ID has been provided.
    pub fn try_build(self) -> (r: Option<EnrollWaitAdd>)
        ensures
            r is Some <==> self@.section_id is Some,
            r matches Some(e) ==> (Some(e.section_id@) == self@.section_id && e.grading_option
                == self@.grading_option && e.unit_count == self@.unit_count),
    {
        match self.section_id {
            Some(section_id) => Some(
                EnrollWaitAdd {
                    section_id,
                    grading_option: self.grading_option,
                    unit_count: self.unit_count,
                },
            ),
            None => None,
        }
    }
}

impl Default for EnrollWaitAddBuilder {
    fn default() -> (r: Self)
        ensures
            r@ == (EnrollWaitAddBuilderView { section_id: None, grading_option: None, unit_count: None }),
    {
        EnrollWaitAddBuilder::new()
    }
}

// ---------------------------------------------------------------------------
// Planning
// ---------------------------------------------------------------------------

/// Use this struct to add more information regarding the course that you want to plan.
///
/// Prefer using the `PlanAddBuilder` to construct this object.
pub struct PlanAdd {
    /// The subject code. For example, `CSE`.
    pub subject_code: String,
    /// The course code. For example, `12`.
    pub course_code: String,
    /// The section ID. For example, `0123123`.
    pub section_id: String,
    /// The section code. For example `A00`.
    pub section_code: String,
    /// The grading option.
    pub grading_option: Option<GradeOption>,
    /// The schedule name. By default, this will use the default schedule.
    pub schedule_name: Option<String>,
    /// The number of units.
    pub unit_count: u8,
}

impl PlanAdd {
    /// Creates a builder to construct this `PlanAdd` object. This is recommended over
    /// directly creating the object yourself.
    ///
    /// # Returns
    /// The builder.
    pub fn builder() -> (r: PlanAddBuilder)
        ensures
            r@ == PlanAddBuilder::empty_view(),
    {
        PlanAddBuilder::new()
    }
}

/// A builder of [`PlanAdd`].
pub struct PlanAddBuilder {
    subject_code: Option<String>,
    course_code: Option<String>,
    section_id: Option<String>,
    section_code: Option<String>,
    grading_option: Option<GradeOption>,
    schedule_name: Option<String>,
    unit_count: Option<u8>,
}

/// What a [`PlanAddBuilder`] has been given so far.
pub struct PlanAddBuilderView {
    pub subject_code: Option<Seq<char>>,
    pub course_code: Option<Seq<char>>,
    pub section_id: Option<Seq<char>>,
    pub section_code: Option<Seq<char>>,
    pub grading_option: Option<GradeOption>,
    pub schedule_name: Option<Seq<char>>,
    pub unit_count: Option<u8>,
}

impl View for PlanAddBuilder {
    type V = PlanAddBuilderView;

    closed spec fn view(&self) -> PlanAddBuilderView {
        PlanAddBuilderView {
            subject_code: opt_view(self.subject_code),
            course_code: opt_view(self.course_code),
            section_id: opt_view(self.section_id),
            section_code: opt_view(self.section_code),
            grading_option: self.grading_option,
            schedule_name: opt_view(self.schedule_name),
            unit_count: self.unit_count,
        }
    }
}

impl PlanAddBuilder {
    /// A builder with nothing set.
    pub open spec fn empty_view() -> PlanAddBuilderView {
        PlanAddBuilderView {
            subject_code: None,
            course_code: None,
            section_id: None,
            section_code: None,
            grading_option: None,
            schedule_name: None,
            unit_count: None,
        }
    }

    /// Creates a new builder for the `PlanAdd` structure.
    ///
    /// # Returns
    /// The builder.
    pub fn new() -> (r: Self)
        ensures
            r@ == Self::empty_view(),
    {
        PlanAddBuilder {
            subject_code: None,
            course_code: None,
            section_id: None,
            section_code: None,
            grading_option: None,
            schedule_name: None,
            unit_count: None,
        }
    }

    /// Sets the subject code for this builder. For example, if `CSE 100` is the course,
    /// then you would use `CSE`.
    ///
    /// # Parameters
    /// - `subj_code`: The subject code.
    ///
    /// # Returns
    /// The builder.
    pub fn with_subject_code(self, subj_code: &str) -> (r: Self)
        ensures
            r@ == (PlanAddBuilderView { subject_code: Some(subj_code@), ..self@ }),
    {
        PlanAddBuilder { subject_code: Some(copy_string(subj_code)), ..self }
    }

    /// Sets the course code for this builder. For example, if `CSE 100` is the course,
    /// then you would use `100`.
    ///
    /// # Parameters
    /// - `course_code`: The course code.
    ///
    /// # Returns
    /// The builder.
    pub fn with_course_code(self, course_code: &str) -> (r: Self)
        ensures
            r@ == (PlanAddBuilderView { course_code: Some(course_code@), ..self@ }),
    {
        PlanAddBuilder { course_code: Some(copy_string(course_code)), ..self }
    }

    /// Sets the section ID for this builder. For example, `0123123` is a possible section ID.
    ///
    /// # Parameters
    /// - `section_id`: The section ID.
    ///
    /// # Returns
    /// The builder.
    pub fn with_section_id(self, section_id: &str) -> (r: Self)
        ensures
            r@ == (PlanAddBuilderView { section_id: Some(section_id@), ..self@ }),
    {
        PlanAddBuilder { section_id: Some(copy_string(section_id)), ..self }
    }

    /// Sets the section code for this builder. For example, `A01` is a possible section code.
    ///
    /// # Parameters
    /// - `section_code`: The section code.
    ///
    /// # Returns
    /// The builder.
    pub fn with_section_code(self, section_code: &str) -> (r: Self)
        ensures
            r@ == (PlanAddBuilderView { section_code: Some(section_code@), ..self@ }),
    {
        PlanAddBuilder { section_code: Some(copy_string(section_code)), ..self }
    }

    /// Sets the grading option (L, P/NP, S/U) for this builder.
    ///
    /// # Parameters
    /// - `grading_option`: The grading option.
    ///
    /// # Returns
    /// The builder.
    pub fn with_grading_option(self, grading_option: GradeOption) -> (r: Self)
        ensures
            r@ == (PlanAddBuilderView { grading_option: Some(grading_option), ..self@ }),
    {
        PlanAddBuilder { grading_option: Some(grading_option), ..self }
    }

    /// Sets the schedule name for this builder.
    ///
    /// # Parameters
    /// - `schedule_name`: The schedule name.
    ///
    /// # Returns
    /// The builder.
    pub fn with_schedule_name(self, schedule_name: &str) -> (r: Self)
        ensures
            r@ == (PlanAddBuilderView { schedule_name: Some(schedule_name@), ..self@ }),
    {
        PlanAddBuilder { schedule_name: Some(copy_string(schedule_name)), ..self }
    }

    /// Sets the number of units for this builder.
    ///
    /// # Parameters
    /// - `units`: The number of units.
    ///
    /// # Returns
    /// The builder.
    pub fn with_unit_count(self, units: u8) -> (r: Self)
        ensures
            r@ == (PlanAddBuilderView { unit_count: Some(units), ..self@ }),
    {
        PlanAddBuilder { unit_count: Some(units), ..self }
    }

    /// Tries to build the `PlanAdd` object.
    ///
    /// # Returns
    /// The result of constructing this `PlanAdd` object. It is guaranteed that this will result
    /// the `PlanAdd` object if the following have been provided at the time of construction:
    /// - subject code,
    /// - course code,
    /// - section ID,
    /// - section code,
    /// - unit count.
    pub fn try_build(self) -> (r: Option<PlanAdd>)
        ensures
            r is Some <==> (self@.subject_code is Some && self@.course_code is Some && self@.section_id is Some
                && self@.section_code is Some && self@.unit_count is Some),
            r matches Some(p) ==> (Some(p.subject_code@) == self@.subject_code && Some(p.course_code@)
                == self@.course_code && Some(p.section_id@) == self@.section_id && Some(p.section_code@)
                == self@.section_code && p.grading_option == self@.grading_option && opt_view(
                p.schedule_name,
            ) == self@.schedule_name && Some(p.unit_count) == self@.unit_count),
    {
        match (self.subject_code, self.course_code, self.section_id, self.section_code, self.unit_count) {
            (Some(s), Some(c), Some(sec_id), Some(sec_code), Some(u)) => Some(
                PlanAdd {
                    subject_code: s,
                    course_code: c,
                    section_id: sec_id,
                    section_code: sec_code,
                    grading_option: self.grading_option,
                    schedule_name: self.schedule_name,
                    unit_count: u,
                },
            ),
            _ => None,
        }
    }
}

impl Default for PlanAddBuilder {
    fn default() -> (r: Self)
        ensures
            r@ == Self::empty_view(),
    {
        PlanAddBuilder::new()
    }
}

// ---------------------------------------------------------------------------
// Events
// ---------------------------------------------------------------------------

/// The day of week enum, which designates what days you want
/// to filter specific sections by.
#[derive(PartialOrd, PartialEq, Eq, Debug, Clone, Copy)]
pub enum DayOfWeek {
    Monday,
    Tuesday,
    Wednesday,
    Thursday,
    Friday,
    Saturday,
    Sunday,
}

/// A struct that represents an event to be added.
///
/// Prefer using the corresponding `EventAddBuilder` to build this object.
pub struct EventAdd {
    /// The name of the event. This is required.
    pub event_name: String,
    /// The location of the event. This is optional.
    pub location: Option<String>,
    /// The days that this event will be held.
    pub event_days: Vec<DayOfWeek>,
    /// The hour start time. For example, if the event starts at
    /// 3:50 PM, use `15` (since `12 + 3 = 15`).
    pub start_hr: i16,
    /// The minute start time. For example, if the event starts at
    /// 3:50 PM, use `50`.
    pub start_min: i16,
    /// The hour end time. For example, if the event ends at 3:50 PM,
    /// use `15` (since `12 + 3 = 15`).
    pub end_hr: i16,
    /// The minute end time. For example, if the event ends at 3:50 PM,
    /// use `50`.
    pub end_min: i16,
}

impl EventAdd {
    /// Creates a builder to construct this `EventAdd` object. This is recommended over
    /// directly creating the object yourself.
    ///
    /// # Returns
    /// The builder.
    pub fn builder() -> (r: EventAddBuilder)
        ensures
            r@ == EventAddBuilder::empty_view(),
    {
        EventAddBuilder::new()
    }
}

/// A builder of [`EventAdd`].
pub struct EventAddBuilder {
    event_name: Option<String>,
    location: Option<String>,
    event_days: Vec<DayOfWeek>,
    start_hr: Option<i16>,
    start_min: Option<i16>,
    end_hr: Option<i16>,
    end_min: Option<i16>,
}

/// What an [`EventAddBuilder`] has been given so far.
pub struct EventAddBuilderView {
    pub event_name: Option<Seq<char>>,
    pub location: Option<Seq<char>>,
    pub event_days: Seq<DayOfWeek>,
    pub start_hr: Option<i16>,
    pub start_min: Option<i16>,
    pub end_hr: Option<i16>,
    pub end_min: Option<i16>,
}

impl View for EventAddBuilder {
    type V = EventAddBuilderView;

    closed spec fn view(&self) -> EventAddBuilderView {
        EventAddBuilderView {
            event_name: opt_view(self.event_name),
            location: opt_view(self.location),
            event_days: self.event_days@,
            start_hr: self.start_hr,
            start_min: self.start_min,
            end_hr: self.end_hr,
            end_min: self.end_min,
        }
    }
}

/// A time of day that an event may have: `0 <= hr <= 23` and `0 <= min <= 59`.
pub open spec fn valid_time(hr: i16, min: i16) -> bool {
    0 <= hr <= 23 && 0 <= min <= 59
}

impl EventAddBuilder {
    /// A builder with nothing set.
    pub open spec fn empty_view() -> EventAddBuilderView {
        EventAddBuilderView {
            event_name: None,
            location: None,
            event_days: Seq::empty(),
            start_hr: None,
            start_min: None,
            end_hr: None,
            end_min: None,
        }
    }

    /// Creates a new builder for the `EventAdd` structure.
    ///
    /// # Returns
    /// The builder.
    pub fn new() -> (r: Self)
        ensures
            r@ == Self::empty_view(),
    {
        EventAddBuilder {
            event_name: None,
            location: None,
            event_days: Vec::new(),
            start_hr: None,
            start_min: None,
            end_hr: None,
            end_min: None,
        }
    }

    /// Sets the name of this event.
    ///
    /// # Parameter
    /// - `name`: The name of the event.
    ///
    /// # Return
    /// The builder.
    pub fn with_name(self, name: &str) -> (r: Self)
        ensures
            r@ == (EventAddBuilderView { event_name: Some(name@), ..self@ }),
    {
        EventAddBuilder { event_name: Some(copy_string(name)), ..self }
    }

    /// Sets the location of this event.
    ///
    /// # Parameter
    /// - `loc`: The location of the event.
    ///
    /// # Return
    /// The builder.
    pub fn with_location(self, loc: &str) -> (r: Self)
        ensures
            r@ == (EventAddBuilderView { location: Some(loc@), ..self@ }),
    {
        EventAddBuilder { location: Some(copy_string(loc)), ..self }
    }

    /// Adds a day when this event will occur.
    ///
    /// # Parameter
    /// - `day`: The day that the event will be held.
    ///
    /// # Return
    /// The builder.
    pub fn with_day(self, day: DayOfWeek) -> (r: Self)
        ensures
            r@ == (EventAddBuilderView { event_days: self@.event_days.push(day), ..self@ }),
    {
        let mut b = self;
        b.event_days.push(day);
        b
    }

    /// Sets the start time of the event.
    ///
    /// # Parameter
    /// - `hr`: The starting hour of the event, in 24-hour format.
    /// - `min`: The starting minute of the event.
    ///
    /// # Return
    /// The builder. The builder will only be modified if the `hr` and `min` arguments
    /// are valid (`0 <= hr <= 23` AND `0 <= min <= 59`).
    pub fn with_start_time(self, hr: i16, min: i16) -> (r: Self)
        ensures
            valid_time(hr, min) ==> r@ == (EventAddBuilderView { start_hr: Some(hr), start_min: Some(min), ..self@ }),
            !valid_time(hr, min) ==> r@ == self@,
    {
        if 0 <= hr && hr <= 23 && 0 <= min && min <= 59 {
            EventAddBuilder { start_hr: Some(hr), start_min: Some(min), ..self }
        } else {
            self
        }
    }

    /// Sets the end time of the event.
    ///
    /// # Parameter
    /// - `hr`: The ending hour of the event, in 24-hour format.
    /// - `min`: The ending minute of the event.
    ///
    /// # Return
    /// The builder. The builder will only be modified if the `hr` and `min` arguments
    /// are valid (`0 <= hr <= 23` AND `0 <= min <= 59`).
    pub fn with_end_time(self, hr: i16, min: i16) -> (r: Self)
        ensures
            valid_time(hr, min) ==> r@ == (EventAddBuilderView { end_hr: Some(hr), end_min: Some(min), ..self@ }),
            !valid_time(hr, min) ==> r@ == self@,
    {
        if 0 <= hr && hr <= 23 && 0 <= min && min <= 59 {
            EventAddBuilder { end_hr: Some(hr), end_min: Some(min), ..self }
        } else {
            self
        }
    }

    /// Attempts to build the event.
    ///
    /// # Returns
    /// The result of the construction of this object. It is guaranteed that this construction
    /// will be successful if the following fields were set:
    /// - the event name,
    /// - the event start time, and
    /// - the event end time.
    pub fn try_build(self) -> (r: Option<EventAdd>)
        ensures
            r is Some <==> (self@.event_name is Some && self@.start_hr is Some && self@.start_min is Some
                && self@.end_hr is Some && self@.end_min is Some),
            r matches Some(e) ==> (Some(e.event_name@) == self@.event_name && opt_view(e.location)
                == self@.location && e.event_days@ == self@.event_days && Some(e.start_hr)
                == self@.start_hr && Some(e.start_min) == self@.start_min && Some(e.end_hr)
                == self@.end_hr && Some(e.end_min) == self@.end_min),
    {
        match (self.event_name, self.start_hr, self.start_min, self.end_hr, self.end_min) {
            (Some(name), Some(s_hr), Some(s_min), Some(e_hr), Some(e_min)) => Some(
                EventAdd {
                    event_name: name,
                    location: self.location,
                    event_days: self.event_days,
                    start_hr: s_hr,
                    start_min: s_min,
                    end_hr: e_hr,
                    end_min: e_min,
                },
            ),
            _ => None,
        }
    }
}

impl Default for EventAddBuilder {
    fn default() -> (r: Self)
        ensures
            r@ == Self::empty_view(),
    {
        EventAddBuilder::new()
    }
}

} // verus!

verus! {

// ---------------------------------------------------------------------------
// Searching
// ---------------------------------------------------------------------------

/// The course level filter enum, which can be used to filter
/// specific sections by.
#[derive(PartialEq, Eq, Debug, Clone, Copy)]
pub enum CourseLevelFilter {
    /// Level 1-99 courses.
    LowerDivision,
    /// Level 87, 90 courses.
    FreshmenSeminar,
    /// Level 99 courses.
    LowerDivisionIndependentStudy,
    /// Level 100-198 courses
    UpperDivision,
    /// Level 195 courses
    Apprenticeship,
    /// Level 199 courses
    UpperDivisionIndependentStudy,
    /// Level 200-297 courses
    Graduate,
    /// Level 298 courses
    GraduateIndependentStudy,
    /// Level 299 courses
    GraduateResearch,
    /// Level 300+ courses
    Lvl300,
    /// Level 400+ courses
    Lvl400,
    /// Level 500+ courses
    Lvl500,
}

/// The bit of a level filter in the 12-bit level mask, from lower division
/// (the highest bit, `1 << 11`) down to level 500+ (`1 << 0`).
pub open spec fn level_bit(filter: CourseLevelFilter) -> u32 {
    match filter {
        CourseLevelFilter::LowerDivision => 2048,
        CourseLevelFilter::FreshmenSeminar => 1024,
        CourseLevelFilter::LowerDivisionIndependentStudy => 512,
        CourseLevelFilter::UpperDivision => 256,
        CourseLevelFilter::Apprenticeship => 128,
        CourseLevelFilter::UpperDivisionIndependentStudy => 64,
        CourseLevelFilter::Graduate => 32,
        CourseLevelFilter::GraduateIndependentStudy => 16,
        CourseLevelFilter::GraduateResearch => 8,
        CourseLevelFilter::Lvl300 => 4,
        CourseLevelFilter::Lvl400 => 2,
        CourseLevelFilter::Lvl500 => 1,
    }
}

/// The bit of a day in the 7-bit day mask, from Monday (`1 << 6`) down to
/// Sunday (`1 << 0`).
pub open spec fn day_bit(day: DayOfWeek) -> u32 {
    match day {
        DayOfWeek::Monday => 64,
        DayOfWeek::Tuesday => 32,
        DayOfWeek::Wednesday => 16,
        DayOfWeek::Thursday => 8,
        DayOfWeek::Friday => 4,
        DayOfWeek::Saturday => 2,
        DayOfWeek::Sunday => 1,
    }
}

/// A time of day that a search may have: `hour <= 23` and `min <= 59`.
pub open spec fn valid_search_time(hour: u32, min: u32) -> bool {
    hour <= 23 && min <= 59
}

/// Used to construct search requests for the `search_courses` function.
///
/// When building your request, you can either use one of the helper methods
/// to add information to your request, or even just directly modify the fields.
/// Note that the former does some validation.
#[derive(Clone)]
pub struct SearchRequestBuilder {
    pub subjects: Vec<String>,
    pub courses: Vec<String>,
    pub departments: Vec<String>,
    pub instructor: Option<String>,
    pub title: Option<String>,
    pub level_filter: u32,
    pub days: u32,
    pub start_time: Option<(u32, u32)>,
    pub end_time: Option<(u32, u32)>,
    pub only_open: bool,
}

/// The abstract value of a [`SearchRequestBuilder`].
pub struct SearchRequestView {
    pub subjects: Seq<Seq<char>>,
    pub courses: Seq<Seq<char>>,
    pub departments: Seq<Seq<char>>,
    pub instructor: Option<Seq<char>>,
    pub title: Option<Seq<char>>,
    pub level_filter: u32,
    pub days: u32,
    pub start_time: Option<(u32, u32)>,
    pub end_time: Option<(u32, u32)>,
    pub only_open: bool,
}

impl View for SearchRequestBuilder {
    type V = SearchRequestView;

    open spec fn view(&self) -> SearchRequestView {
        SearchRequestView {
            subjects: strs_view(self.subjects@),
            courses: strs_view(self.courses@),
            departments: strs_view(self.departments@),
            instructor: opt_view(self.instructor),
            title: opt_view(self.title),
            level_filter: self.level_filter,
            days: self.days,
            start_time: self.start_time,
            end_time: self.end_time,
            only_open: self.only_open,
        }
    }
}

/// Appends to `v` the uppercase form of `s`, unless `s` is over 4 bytes long.
fn push_code(v: &mut Vec<String>, s: &str)
    ensures
        s.spec_bytes().len() > 4 ==> strs_view(final(v)@) == strs_view(old(v)@),
        s.spec_bytes().len() <= 4 ==> strs_view(final(v)@) == strs_view(old(v)@).push(upper_text(s@)),
{
    if s.as_bytes().len() <= 4 {
        let u = uppercase(s);
        proof {
            crate::types::lemma_strs_view_push(v@, u);
        }
        v.push(u);
    }
}

impl SearchRequestBuilder {
    /// A search request with nothing set.
    pub open spec fn empty_view() -> SearchRequestView {
        SearchRequestView {
            subjects: Seq::empty(),
            courses: Seq::empty(),
            departments: Seq::empty(),
            instructor: None,
            title: None,
            level_filter: 0,
            days: 0,
            start_time: None,
            end_time: None,
            only_open: false,
        }
    }

    /// Creates a new instance of the `SearchRequestBuilder`, which is used to search for specific
    /// courses.
    ///
    /// # Returns
    /// The empty `SearchRequestBuilder`.
    pub fn new() -> (r: Self)
        ensures
            r@ == Self::empty_view(),
    {
        let r = SearchRequestBuilder {
            subjects: Vec::new(),
            courses: Vec::new(),
            departments: Vec::new(),
            instructor: None,
            title: None,
            level_filter: 0,
            days: 0,
            start_time: None,
            end_time: None,
            only_open: false,
        };
        assert(r@.subjects =~= Seq::<Seq<char>>::empty());
        assert(r@.courses =~= Seq::<Seq<char>>::empty());
        assert(r@.departments =~= Seq::<Seq<char>>::empty());
        r
    }

    /// Adds a subject to this search request. Valid search requests are uppercase and at most
    /// 4 characters long. Some examples include `MATH` or `CSE`.
    ///
    /// # Parameters
    /// - `subject`: The subject.
    ///
    /// # Returns
    /// The `SearchRequestBuilder`
    pub fn add_subject(self, subject: &str) -> (r: Self)
        ensures
            subject.spec_bytes().len() > 4 ==> r@ == self@,
            subject.spec_bytes().len() <= 4 ==> r@ == (SearchRequestView {
                subjects: self@.subjects.push(upper_text(subject@)),
                ..self@
            }),
    {
        let mut b = self;
        push_code(&mut b.subjects, subject);
        b
    }

    /// Adds a course (either a subject code, course code, or both) to the search request. Some
    /// examples include `20E`, `math 20d`, `101`, `CSE`.
    ///
    /// # Parameters
    /// - `course`: The course.
    ///
    /// # Returns
    /// The `SearchRequestBuilder`
    pub fn add_course(self, course: &str) -> (r: Self)
        ensures
            r@ == (SearchRequestView { courses: self@.courses.push(course@), ..self@ }),
    {
        let mut b = self;
        let c = copy_string(course);
        proof {
            crate::types::lemma_strs_view_push(b.courses@, c);
        }
        b.courses.push(c);
        b
    }

    /// Adds a department to the search request. Valid search requests are uppercase and at most 4
    /// characters long. Some examples include `MATH` or `CSE`.
    ///
    /// # Parameters
    /// - `department`: The department.
    ///
    /// # Returns
    /// The `SearchRequestBuilder`
    pub fn add_department(self, department: &str) -> (r: Self)
        ensures
            department.spec_bytes().len() > 4 ==> r@ == self@,
            department.spec_bytes().len() <= 4 ==> r@ == (SearchRequestView {
                departments: self@.departments.push(upper_text(department@)),
                ..self@
            }),
    {
        let mut b = self;
        push_code(&mut b.departments, department);
        b
    }

    /// Sets the instructor to the specified instructor.
    ///
    /// # Parameters
    /// - `instructor`: The instructor. This should be formatted in `Last Name, First Name` form.
    ///
    /// # Returns
    /// The `SearchRequestBuilder`
    pub fn set_instructor(self, instructor: &str) -> (r: Self)
        ensures
            r@ == (SearchRequestView { instructor: Some(instructor@), ..self@ }),
    {
        SearchRequestBuilder { instructor: Some(copy_string(instructor)), ..self }
    }

    /// Sets the course title to the specified title. Some examples could be `differential equ`,
    /// `data structures`, `algorithms`, and so on.
    ///
    /// # Parameters
    /// - `title`: The title of the course.
    ///
    /// # Returns
    /// The `SearchRequestBuilder`
    pub fn set_title(self, title: &str) -> (r: Self)
        ensures
            r@ == (SearchRequestView { title: Some(title@), ..self@ }),
    {
        SearchRequestBuilder { title: Some(copy_string(title)), ..self }
    }

    /// Restrict search results to to the specified filter. This can be applied multiple times.
    ///
    /// # Parameters
    /// - `filter`: The filter.
    ///
    /// # Returns
    /// The `SearchRequestBuilder`
    pub fn filter_courses_by(self, filter: CourseLevelFilter) -> (r: Self)
        ensures
            r@ == (SearchRequestView { level_filter: self@.level_filter | level_bit(filter), ..self@ }),
    {
        let bit: u32 = match filter {
            CourseLevelFilter::LowerDivision => 2048,
            CourseLevelFilter::FreshmenSeminar => 1024,
            CourseLevelFilter::LowerDivisionIndependentStudy => 512,
            CourseLevelFilter::UpperDivision => 256,
            CourseLevelFilter::Apprenticeship => 128,
            CourseLevelFilter::UpperDivisionIndependentStudy => 64,
            CourseLevelFilter::Graduate => 32,
            CourseLevelFilter::GraduateIndependentStudy => 16,
            CourseLevelFilter::GraduateResearch => 8,
            CourseLevelFilter::Lvl300 => 4,
            CourseLevelFilter::Lvl400 => 2,
            CourseLevelFilter::Lvl500 => 1,
        };
        let level_filter = self.level_filter | bit;
        SearchRequestBuilder { level_filter, ..self }
    }

    /// Only shows courses based on the specified day(s).
    ///
    /// # Parameters
    /// - `day`: The day.
    ///
    /// # Returns
    /// The `SearchRequestBuilder`
    pub fn apply_day(self, day: DayOfWeek) -> (r: Self)
        ensures
            r@ == (SearchRequestView { days: self@.days | day_bit(day), ..self@ }),
    {
        let bit: u32 = match day {
            DayOfWeek::Monday => 64,
            DayOfWeek::Tuesday => 32,
            DayOfWeek::Wednesday => 16,
            DayOfWeek::Thursday => 8,
            DayOfWeek::Friday => 4,
            DayOfWeek::Saturday => 2,
            DayOfWeek::Sunday => 1,
        };
        let days = self.days | bit;
        SearchRequestBuilder { days, ..self }
    }

    /// Only shows courses based on the specified day(s); the same as [`Self::apply_day`].
    ///
    /// # Parameters
    /// - `day`: The day.
    ///
    /// # Returns
    /// The `SearchRequestBuilder`
    pub fn apply_days(self, day: DayOfWeek) -> (r: Self)
        ensures
            r@ == (SearchRequestView { days: self@.days | day_bit(day), ..self@ }),
    {
        self.apply_day(day)
    }

    /// Sets the start time to the specified time.
    ///
    /// # Parameters
    /// - `hour`: The hour. This should be between 0 and 23, inclusive.
    /// - `min`: The minute. This should be between 0 and 59, inclusive.
    ///
    /// # Returns
    /// The `SearchRequestBuilder`
    pub fn set_start_time(self, hour: u32, min: u32) -> (r: Self)
        ensures
            valid_search_time(hour, min) ==> r@ == (SearchRequestView { start_time: Some((hour, min)), ..self@ }),
            !valid_search_time(hour, min) ==> r@ == self@,
    {
        if hour > 23 || min > 59 {
            return self;
        }
        SearchRequestBuilder { start_time: Some((hour, min)), ..self }
    }

    /// Sets the end time to the specified time.
    ///
    /// # Parameters
    /// - `hour`: The hour. This should be between 0 and 23, inclusive.
    /// - `min`: The minute. This should be between 0 and 59, inclusive.
    ///
    /// # Returns
    /// The `SearchRequestBuilder`
    pub fn set_end_time(self, hour: u32, min: u32) -> (r: Self)
        ensures
            valid_search_time(hour, min) ==> r@ == (SearchRequestView { end_time: Some((hour, min)), ..self@ }),
            !valid_search_time(hour, min) ==> r@ == self@,
    {
        if hour > 23 || min > 59 {
            return self;
        }
        SearchRequestBuilder { end_time: Some((hour, min)), ..self }
    }

    /// Whether to only show sections with open seats.
    ///
    /// # Returns
    /// The `SearchRequestBuilder`
    pub fn only_allow_open(self) -> (r: Self)
        ensures
            r@ == (SearchRequestView { only_open: true, ..self@ }),
    {
        SearchRequestBuilder { only_open: true, ..self }
    }
}

impl Default for SearchRequestBuilder {
    fn default() -> (r: Self)
        ensures
            r@ == Self::empty_view(),
    {
        Self::new()
    }
}

/// Lets you choose how you want to search for a course. It is recommended that
/// you use one of the associated functions to create this enum instance.
pub enum SearchType {
    /// Searches for a course by section ID.
    BySection(String),
    /// Searches for a course by more than one section ID.
    ByMultipleSections(Vec<String>),
    /// Searches for a (set of) course(s) by multiple specifications.
    Advanced(SearchRequestBuilder),
}

} // verus!

verus! {

/// The grading options have different codes.
pub proof fn lemma_grade_codes_distinct(a: GradeOption, b: GradeOption)
    ensures
        grade_code(a) == grade_code(b) ==> a == b,
{
    if grade_code(a) == grade_code(b) {
        assert(grade_code(a)[0] == grade_code(b)[0]);
    }
}

/// A level filter may be applied more than once, and in any order: applying
/// one twice is applying it once, and two filters give the same mask in
/// either order.
pub proof fn lemma_level_filters_combine(m: u32, f: CourseLevelFilter, g: CourseLevelFilter)
    ensures
        (m | level_bit(f)) | level_bit(f) == m | level_bit(f),
        (m | level_bit(f)) | level_bit(g) == (m | level_bit(g)) | level_bit(f),
{
    let x = level_bit(f);
    let y = level_bit(g);
    assert((m | x) | x == m | x) by (bit_vector);
    assert((m | x) | y == (m | y) | x) by (bit_vector);
}

/// A day may be applied more than once, and days in any order: applying one
/// twice is applying it once, and two days give the same mask in either order.
pub proof fn lemma_days_combine(m: u32, d: DayOfWeek, e: DayOfWeek)
    ensures
        (m | day_bit(d)) | day_bit(d) == m | day_bit(d),
        (m | day_bit(d)) | day_bit(e) == (m | day_bit(e)) | day_bit(d),
{
    let x = day_bit(d);
    let y = day_bit(e);
    assert((m | x) | x == m | x) by (bit_vector);
    assert((m | x) | y == (m | y) | x) by (bit_vector);
}

/// Different level filters set different bits, within the twelve bits of the mask.
pub proof fn lemma_level_bits_distinct(f: CourseLevelFilter, g: CourseLevelFilter)
    ensures
        level_bit(f) < 4096,
        f != g ==> level_bit(f) & level_bit(g) == 0,
{
    let x = level_bit(f);
    let y = level_bit(g);
    assert(x == 1 || x == 2 || x == 4 || x == 8 || x == 16 || x == 32 || x == 64 || x == 128 || x == 256 || x
        == 512 || x == 1024 || x == 2048);
    if f != g {
        assert(x != y);
        assert(y == 1 || y == 2 || y == 4 || y == 8 || y == 16 || y == 32 || y == 64 || y == 128 || y == 256
            || y == 512 || y == 1024 || y == 2048);
        assert((x == 1 || x == 2 || x == 4 || x == 8 || x == 16 || x == 32 || x == 64 || x == 128 || x == 256 || x
            == 512 || x == 1024 || x == 2048) && (y == 1 || y == 2 || y == 4 || y == 8 || y == 16 || y == 32 || y
            == 64 || y == 128 || y == 256 || y == 512 || y == 1024 || y == 2048) && x != y ==> x & y == 0)
            by (bit_vector);
    }
}

/// The day mask that applying the days `ds` in turn to a request with no
/// days gives, as [`SearchRequestBuilder::apply_day`] does.
pub open spec fn days_mask(ds: Seq<DayOfWeek>) -> u32
    decreases ds.len(),
{
    if ds.len() == 0 {
        0
    } else {
        days_mask(ds.drop_last()) | day_bit(ds.last())
    }
}

/// The `i`-th day of the week, Monday first.
pub open spec fn week_day(i: int) -> DayOfWeek {
    if i == 0 {
        DayOfWeek::Monday
    } else if i == 1 {
        DayOfWeek::Tuesday
    } else if i == 2 {
        DayOfWeek::Wednesday
    } else if i == 3 {
        DayOfWeek::Thursday
    } else if i == 4 {
        DayOfWeek::Friday
    } else if i == 5 {
        DayOfWeek::Saturday
    } else {
        DayOfWeek::Sunday
    }
}

/// The seven binary digits of `m`, most significant first, as
/// `format!("{:07b}", m)` writes a number below 128.
pub open spec fn mask_digits(m: u32) -> Seq<char> {
    Seq::new(7, |i: int| if (m >> ((6 - i) as u32)) & 1u32 == 1u32 { '1' } else { '0' })
}

/// The names of the days of the week that occur in `ds`, among the first
/// `n`, Monday first, each once.
pub open spec fn day_names_present(ds: Seq<DayOfWeek>, n: int) -> Seq<Seq<char>>
    decreases n,
{
    if n <= 0 {
        Seq::empty()
    } else if ds.contains(week_day(n - 1)) {
        day_names_present(ds, n - 1).push(binary_day_name(n - 1))
    } else {
        day_names_present(ds, n - 1)
    }
}

proof fn lemma_day_bit_digit(m: u32, i: int)
    requires
        0 <= i < 7,
    ensures
        ((m >> ((6 - i) as u32)) & 1u32 == 1u32) <==> (m & day_bit(week_day(i)) != 0),
{
    if i == 0 {
        assert(((m >> 6u32) & 1u32 == 1u32) <==> (m & 64u32 != 0)) by (bit_vector);
    } else if i == 1 {
        assert(((m >> 5u32) & 1u32 == 1u32) <==> (m & 32u32 != 0)) by (bit_vector);
    } else if i == 2 {
        assert(((m >> 4u32) & 1u32 == 1u32) <==> (m & 16u32 != 0)) by (bit_vector);
    } else if i == 3 {
        assert(((m >> 3u32) & 1u32 == 1u32) <==> (m & 8u32 != 0)) by (bit_vector);
    } else if i == 4 {
        assert(((m >> 2u32) & 1u32 == 1u32) <==> (m & 4u32 != 0)) by (bit_vector);
    } else if i == 5 {
        assert(((m >> 1u32) & 1u32 == 1u32) <==> (m & 2u32 != 0)) by (bit_vector);
    } else {
        assert(((m >> 0u32) & 1u32 == 1u32) <==> (m & 1u32 != 0)) by (bit_vector);
    }
}

proof fn lemma_day_bits_meet(d: DayOfWeek, i: int)
    requires
        0 <= i < 7,
    ensures
        (day_bit(d) & day_bit(week_day(i)) != 0) <==> d == week_day(i),
        day_bit(d) < 128,
{
    let x = day_bit(d);
    let y = day_bit(week_day(i));
    assert(x == 1 || x == 2 || x == 4 || x == 8 || x == 16 || x == 32 || x == 64);
    assert(y == 1 || y == 2 || y == 4 || y == 8 || y == 16 || y == 32 || y == 64);
    assert((x == 1 || x == 2 || x == 4 || x == 8 || x == 16 || x == 32 || x == 64) && (y == 1 || y == 2 || y
        == 4 || y == 8 || y == 16 || y == 32 || y == 64) ==> ((x & y != 0) <==> x == y)) by (bit_vector);
}

proof fn lemma_days_mask_bits(ds: Seq<DayOfWeek>)
    ensures
        days_mask(ds) < 128,
        forall|i: int| 0 <= i < 7 ==> ((days_mask(ds) & day_bit(#[trigger] week_day(i)) != 0) <==> ds.contains(week_day(i))),
    decreases ds.len(),
{
    if ds.len() > 0 {
        let t = ds.drop_last();
        let d = ds.last();
        lemma_days_mask_bits(t);
        let m = days_mask(t);
        let b = day_bit(d);
        lemma_day_bits_meet(d, 0);
        assert(m < 128 && b < 128 ==> (m | b) < 128) by (bit_vector);
        assert forall|i: int| 0 <= i < 7 implies ((days_mask(ds) & day_bit(#[trigger] week_day(i)) != 0) <==> ds.contains(week_day(i))) by {
            let c = day_bit(week_day(i));
            lemma_day_bits_meet(d, i);
            assert(((m | b) & c != 0) <==> ((m & c != 0) || (b & c != 0))) by (bit_vector);
            let w = week_day(i);
            if t.contains(w) {
                let j = choose|j: int| 0 <= j < t.len() && t[j] == w;
                assert(ds[j] == t[j]);
            }
            if d == w {
                assert(ds[ds.len() - 1] == w);
            }
            if ds.contains(w) {
                let j = choose|j: int| 0 <= j < ds.len() && ds[j] == w;
                if j < ds.len() - 1 {
                    assert(t[j] == ds[j]);
                }
            }
        }
    } else {
        assert forall|i: int| 0 <= i < 7 implies ((days_mask(ds) & day_bit(#[trigger] week_day(i)) != 0) <==> ds.contains(week_day(i))) by {
            let c = day_bit(week_day(i));
            assert(0u32 & c == 0u32) by (bit_vector);
        }
    }
}

/// Applying days to a request keeps its day mask below 128, and the seven
/// binary digits of the mask, read as a binary day string, name the days
/// applied, Monday first, each once.
pub proof fn lemma_days_mask_binary(ds: Seq<DayOfWeek>)
    ensures
        days_mask(ds) < 128,
        spec_binary_days(7, mask_digits(days_mask(ds))) == day_names_present(ds, 7),
{
    lemma_days_mask_bits(ds);
    let m = days_mask(ds);
    let digits = mask_digits(m);
    assert forall|n: int| 0 <= n <= 7 implies binary_days_upto(digits, n) == #[trigger] day_names_present(ds, n) by {
        lemma_days_prefix(ds, digits, n);
    }
    assert(binary_days_upto(digits, 7) == day_names_present(ds, 7));
}

proof fn lemma_days_prefix(ds: Seq<DayOfWeek>, digits: Seq<char>, n: int)
    requires
        0 <= n <= 7,
        digits == mask_digits(days_mask(ds)),
        forall|i: int| 0 <= i < 7 ==> ((days_mask(ds) & day_bit(#[trigger] week_day(i)) != 0) <==> ds.contains(week_day(i))),
    ensures
        binary_days_upto(digits, n) == day_names_present(ds, n),
    decreases n,
{
    if n > 0 {
        lemma_days_prefix(ds, digits, n - 1);
        lemma_day_bit_digit(days_mask(ds), n - 1);
        assert(digits[n - 1] == if (days_mask(ds) >> ((6 - (n - 1)) as u32)) & 1u32 == 1u32 { '1' } else { '0' });
        assert((digits[n - 1] == '1') <==> ds.contains(week_day(n - 1)));
    }
}

} // verus!
