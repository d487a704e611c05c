//! The human-readable forms of the library's values, as text.
use vstd::prelude::*;

use crate::num::{int_decimal, nat_digits, zero_pad};
use crate::text::{extend_chars, join, str_chars, string_from_chars};
use crate::types::{
    CourseSection, CourseSectionView, EnrollmentStatus, Event, EventView, Meeting, MeetingDay,
    MeetingDayView, MeetingView, ScheduledSection, ScheduledSectionView, SearchResultItem,
    SectionIdNotFoundContext, strs_view,
};

verus! {

// ---------------------------------------------------------------------------
// Building text
// ---------------------------------------------------------------------------

/// Appends the characters of `s` to `out`.
fn push_str(out: &mut Vec<char>, s: &str)
    ensures
        final(out)@ == old(out)@ + s@,
{
    let v = str_chars(s);
    extend_chars(out, v.as_slice());
}

/// Appends the decimal notation of `i` to `out`.
fn push_int(out: &mut Vec<char>, i: i64)
    ensures
        final(out)@ == old(out)@ + int_decimal(i as int),
{
    let d = crate::num::i64_decimal(i);
    extend_chars(out, d.as_slice());
}

/// Appends the decimal notation of `n` to `out`.
fn push_nat(out: &mut Vec<char>, n: u32)
    ensures
        final(out)@ == old(out)@ + nat_digits(n as nat),
{
    let d = crate::num::u128_digits(n as u128);
    extend_chars(out, d.as_slice());
}

/// Appends the decimal notation of `n`, padded with zeros to two digits, to `out`.
fn push_two_digits(out: &mut Vec<char>, n: u32)
    ensures
        final(out)@ == old(out)@ + zero_pad(nat_digits(n as nat), 2),
{
    let d = crate::num::u128_digits(n as u128);
    let p = crate::num::zero_pad_chars(d.as_slice(), 2);
    extend_chars(out, p.as_slice());
}

/// Appends the strings of `v`, joined with `sep`, to `out`.
fn push_joined(out: &mut Vec<char>, v: &Vec<String>, sep: &str)
    ensures
        final(out)@ == old(out)@ + join(strs_view(v@), sep@),
{
    let ghost start = out@;
    let ghost parts = strs_view(v@);
    let sepv = str_chars(sep);
    let mut acc: Vec<char> = Vec::new();
    let mut i: usize = 0;
    assert(parts.take(0) =~= Seq::<Seq<char>>::empty());
    while i < v.len()
        invariant
            i <= v@.len(),
            parts == strs_view(v@),
            sepv@ == sep@,
            acc@ == join(parts.take(i as int), sep@),
        decreases v@.len() - i,
    {
        let p = str_chars(v[i].as_str());
        assert(parts.take(i + 1) =~= parts.take(i as int).push(p@));
        proof {
            crate::text::lemma_join_push(parts.take(i as int), sep@, p@);
        }
        crate::text::join_push(&mut acc, i, sepv.as_slice(), p.as_slice());
        i += 1;
    }
    assert(parts.take(parts.len() as int) =~= parts);
    extend_chars(out, acc.as_slice());
}

// ---------------------------------------------------------------------------
// The texts
// ---------------------------------------------------------------------------

/// A time as `H:MM`.
pub open spec fn clock_text(hr: u32, min: u32) -> Seq<char> {
    nat_digits(hr as nat) + ":"@ + zero_pad(nat_digits(min as nat), 2)
}

/// The days of a meeting: the day names run together, the date of a
/// one-time meeting, or `N/A`; then a space.
pub open spec fn meeting_days_text(d: MeetingDayView) -> Seq<char> {
    match d {
        MeetingDayView::Repeated(r) => join(r, ""@) + " "@,
        MeetingDayView::OneTime(r) => r + " "@,
        MeetingDayView::NoMeeting => "N/A "@,
    }
}

/// A meeting as one line: `[type] days at H:MM - H:MM in building room`.
pub open spec fn meeting_text(m: MeetingView) -> Seq<char> {
    "["@ + m.meeting_type + "] "@ + meeting_days_text(m.meeting_days) + "at "@ + clock_text(m.start_hr, m.start_min)
        + " - "@ + clock_text(m.end_hr, m.end_min) + " "@ + "in "@ + m.building + " "@ + m.room + "\n"@
}

/// The meetings of a section, each on a line of its own, indented twice.
pub open spec fn meetings_text(ms: Seq<MeetingView>) -> Seq<char>
    decreases ms.len(),
{
    if ms.len() == 0 {
        Seq::empty()
    } else {
        meetings_text(ms.drop_last()) + "\t\t"@ + meeting_text(ms.last())
    }
}

/// The text of a meeting, as characters.
fn meeting_chars(m: &Meeting) -> (r: Vec<char>)
    ensures
        r@ == meeting_text(m@),
{
    let mut out: Vec<char> = Vec::new();
    push_str(&mut out, "[");
    push_str(&mut out, m.meeting_type.as_str());
    push_str(&mut out, "] ");
    let days = days_chars(&m.meeting_days);
    extend_chars(&mut out, days.as_slice());
    push_str(&mut out, "at ");
    push_nat(&mut out, m.start_hr);
    push_str(&mut out, ":");
    push_two_digits(&mut out, m.start_min);
    push_str(&mut out, " - ");
    push_nat(&mut out, m.end_hr);
    push_str(&mut out, ":");
    push_two_digits(&mut out, m.end_min);
    push_str(&mut out, " ");
    push_str(&mut out, "in ");
    push_str(&mut out, m.building.as_str());
    push_str(&mut out, " ");
    push_str(&mut out, m.room.as_str());
    push_str(&mut out, "\n");
    assert(out@ =~= meeting_text(m@));
    out
}

/// The text of the days of a meeting, as characters.
fn days_chars(d: &MeetingDay) -> (r: Vec<char>)
    ensures
        r@ == meeting_days_text(d@),
{
    let mut out: Vec<char> = Vec::new();
    match d {
        MeetingDay::Repeated(r) => {
            push_joined(&mut out, r, "");
            push_str(&mut out, " ");
            assert(out@ =~= join(strs_view(r@), ""@) + " "@);
        },
        MeetingDay::OneTime(r) => {
            push_str(&mut out, r.as_str());
            push_str(&mut out, " ");
            assert(out@ =~= r@ + " "@);
        },
        MeetingDay::NoMeeting => {
            push_str(&mut out, "N/A ");
            assert(out@ =~= "N/A "@);
        },
    }
    out
}

/// Appends the text of the meetings `ms` to `out`.
fn push_meetings(out: &mut Vec<char>, ms: &Vec<Meeting>)
    ensures
        final(out)@ == old(out)@ + meetings_text(crate::types::meetings_view(ms@)),
{
    let ghost start = out@;
    let ghost mv = crate::types::meetings_view(ms@);
    let mut i: usize = 0;
    assert(mv.take(0) =~= Seq::<MeetingView>::empty());
    assert(start + meetings_text(mv.take(0)) =~= start);
    while i < ms.len()
        invariant
            i <= ms@.len(),
            mv == crate::types::meetings_view(ms@),
            out@ == start + meetings_text(mv.take(i as int)),
        decreases ms@.len() - i,
    {
        push_str(out, "\t\t");
        let t = meeting_chars(&ms[i]);
        extend_chars(out, t.as_slice());
        assert(mv.take(i + 1).drop_last() =~= mv.take(i as int));
        assert(mv.take(i + 1).last() == ms@[i as int]@);
        assert(out@ =~= start + meetings_text(mv.take(i + 1)));
        i += 1;
    }
    assert(mv.take(mv.len() as int) =~= mv);
}

/// A boolean as `true` or `false`.
pub open spec fn bool_text(b: bool) -> Seq<char> {
    if b {
        "true"@
    } else {
        "false"@
    }
}

/// A course section as a block of lines: its code, ID and course, its
/// instructors and enrollment figures, whether one can enroll, and its meetings.
pub open spec fn section_text(s: CourseSectionView) -> Seq<char> {
    "["@ + s.section_code + " / "@ + s.section_id + "] "@ + s.subj_course_id + "\n"@
        + "\tInstructors: ["@ + join(s.all_instructors, ", "@) + "]\n"@
        + "\tEnrolled: "@ + int_decimal(s.enrolled_ct as int) + "\n"@
        + "\tAvailable: "@ + int_decimal(s.available_seats as int) + "\n"@
        + "\tWaitlist: "@ + int_decimal(s.waitlist_ct as int) + "\n"@
        + "\tTotal Seats: "@ + int_decimal(s.total_seats as int) + "\n"@
        + "\tCan Enroll? "@ + bool_text(s.available_seats > 0 && s.waitlist_ct == 0) + "\n"@
        + "\tMeeting Information:\n"@ + meetings_text(s.meetings)
}

/// The enrollment status as a scheduled section shows it.
pub open spec fn status_text(e: EnrollmentStatus) -> Seq<char> {
    match e {
        EnrollmentStatus::Enrolled => "Enrolled\n"@,
        EnrollmentStatus::Waitlist { waitlist_pos } => "Waitlisted (Position "@ + int_decimal(waitlist_pos as int)
            + ")\n"@,
        EnrollmentStatus::Planned => "Planned\n"@,
        EnrollmentStatus::Unknown => "Unknown\n"@,
    }
}

/// A scheduled section as a block of lines: its codes and title, its
/// instructors, its enrollment figures, the person's status, units and
/// grading option, and its meetings.
pub open spec fn scheduled_text(s: ScheduledSectionView) -> Seq<char> {
    "["@ + s.section_code + " / "@ + s.section_id + "] "@ + s.section_code + " "@ + s.course_code + ": "@
        + s.course_title + "\n"@
        + "\tInstructors: ["@ + join(s.all_instructors, ", "@) + "]\n"@
        + "\tCourse Enrollment Information:\n"@
        + "\t\tEnrolled: "@ + int_decimal(s.enrolled_count as int) + "\n"@
        + "\t\tAvailable: "@ + int_decimal(s.available_seats as int) + "\n"@
        + "\t\tWaitlist: "@ + int_decimal(s.waitlist_ct as int) + "\n"@
        + "\t\tTotal Seats: "@ + int_decimal(s.section_capacity as int) + "\n"@
        + "\tEnrollment Information:\n"@
        + "\t\tStatus: "@ + status_text(s.enrolled_status)
        + "\t\tUnits: "@ + int_decimal(s.units as int) + "\n"@
        + "\t\tGrade Option: "@ + s.grade_option + "\n"@
        + "\tMeeting Information:\n"@ + meetings_text(s.meetings)
}

/// An event as a block of lines: its name, location, days, time and timestamp.
pub open spec fn event_text(e: EventView) -> Seq<char> {
    "[Event] "@ + e.name + "\n"@
        + "\tLocation: "@ + e.location + "\n"@
        + "\tDay of Week: "@ + join(e.days, ""@) + "\n"@
        + "\tTime: "@ + clock_text(e.start_hr, e.start_min) + " - "@ + clock_text(e.end_hr, e.end_min) + "\n"@
        + "\tTimestamp: "@ + e.timestamp + "\n"@
}

impl Meeting {
    /// The meeting as one line: `[type] days at H:MM - H:MM in building room`.
    pub fn to_string(&self) -> (r: String)
        ensures
            r@ == meeting_text(self@),
    {
        let v = meeting_chars(self);
        string_from_chars(v.as_slice())
    }
}

impl CourseSection {
    /// The section as a block of lines.
    pub fn to_string(&self) -> (r: String)
        ensures
            r@ == section_text(self@),
    {
        let mut out: Vec<char> = Vec::new();
        push_str(&mut out, "[");
        push_str(&mut out, self.section_code.as_str());
        push_str(&mut out, " / ");
        push_str(&mut out, self.section_id.as_str());
        push_str(&mut out, "] ");
        push_str(&mut out, self.subj_course_id.as_str());
        push_str(&mut out, "\n");
        push_str(&mut out, "\tInstructors: [");
        push_joined(&mut out, &self.all_instructors, ", ");
        push_str(&mut out, "]\n");
        push_str(&mut out, "\tEnrolled: ");
        push_int(&mut out, self.enrolled_ct);
        push_str(&mut out, "\n");
        push_str(&mut out, "\tAvailable: ");
        push_int(&mut out, self.available_seats);
        push_str(&mut out, "\n");
        push_str(&mut out, "\tWaitlist: ");
        push_int(&mut out, self.waitlist_ct);
        push_str(&mut out, "\n");
        push_str(&mut out, "\tTotal Seats: ");
        push_int(&mut out, self.total_seats);
        push_str(&mut out, "\n");
        push_str(&mut out, "\tCan Enroll? ");
        if self.has_seats() {
            push_str(&mut out, "true");
        } else {
            push_str(&mut out, "false");
        }
        push_str(&mut out, "\n");
        push_str(&mut out, "\tMeeting Information:\n");
        push_meetings(&mut out, &self.meetings);
        assert(out@ =~= section_text(self@));
        string_from_chars(out.as_slice())
    }
}

impl ScheduledSection {
    /// The scheduled section as a block of lines.
    pub fn to_string(&self) -> (r: String)
        ensures
            r@ == scheduled_text(self@),
    {
        let mut out: Vec<char> = Vec::new();
        push_str(&mut out, "[");
        push_str(&mut out, self.section_code.as_str());
        push_str(&mut out, " / ");
        push_str(&mut out, self.section_id.as_str());
        push_str(&mut out, "] ");
        push_str(&mut out, self.section_code.as_str());
        push_str(&mut out, " ");
        push_str(&mut out, self.course_code.as_str());
        push_str(&mut out, ": ");
        push_str(&mut out, self.course_title.as_str());
        push_str(&mut out, "\n");
        push_str(&mut out, "\tInstructors: [");
        push_joined(&mut out, &self.all_instructors, ", ");
        push_str(&mut out, "]\n");
        push_str(&mut out, "\tCourse Enrollment Information:\n");
        push_str(&mut out, "\t\tEnrolled: ");
        push_int(&mut out, self.enrolled_count);
        push_str(&mut out, "\n");
        push_str(&mut out, "\t\tAvailable: ");
        push_int(&mut out, self.available_seats);
        push_str(&mut out, "\n");
        push_str(&mut out, "\t\tWaitlist: ");
        push_int(&mut out, self.waitlist_ct);
        push_str(&mut out, "\n");
        push_str(&mut out, "\t\tTotal Seats: ");
        push_int(&mut out, self.section_capacity);
        push_str(&mut out, "\n");
        push_str(&mut out, "\tEnrollment Information:\n");
        push_str(&mut out, "\t\tStatus: ");
        match self.enrolled_status {
            EnrollmentStatus::Enrolled => push_str(&mut out, "Enrolled\n"),
            EnrollmentStatus::Waitlist { waitlist_pos } => {
                push_str(&mut out, "Waitlisted (Position ");
                push_int(&mut out, waitlist_pos);
                push_str(&mut out, ")\n");
            },
            EnrollmentStatus::Planned => push_str(&mut out, "Planned\n"),
            EnrollmentStatus::Unknown => push_str(&mut out, "Unknown\n"),
        }
        push_str(&mut out, "\t\tUnits: ");
        push_int(&mut out, self.units);
        push_str(&mut out, "\n");
        push_str(&mut out, "\t\tGrade Option: ");
        push_str(&mut out, self.grade_option.as_str());
        push_str(&mut out, "\n");
        push_str(&mut out, "\tMeeting Information:\n");
        push_meetings(&mut out, &self.meetings);
        assert(out@ =~= scheduled_text(self@));
        string_from_chars(out.as_slice())
    }
}

impl Event {
    /// The event as a block of lines.
    pub fn to_string(&self) -> (r: String)
        ensures
            r@ == event_text(self@),
    {
        let mut out: Vec<char> = Vec::new();
        push_str(&mut out, "[Event] ");
        push_str(&mut out, self.name.as_str());
        push_str(&mut out, "\n");
        push_str(&mut out, "\tLocation: ");
        push_str(&mut out, self.location.as_str());
        push_str(&mut out, "\n");
        push_str(&mut out, "\tDay of Week: ");
        push_joined(&mut out, &self.days, "");
        push_str(&mut out, "\n");
        push_str(&mut out, "\tTime: ");
        push_nat(&mut out, self.start_hr);
        push_str(&mut out, ":");
        push_two_digits(&mut out, self.start_min);
        push_str(&mut out, " - ");
        push_nat(&mut out, self.end_hr);
        push_str(&mut out, ":");
        push_two_digits(&mut out, self.end_min);
        push_str(&mut out, "\n");
        push_str(&mut out, "\tTimestamp: ");
        push_str(&mut out, self.timestamp.as_str());
        push_str(&mut out, "\n");
        assert(out@ =~= event_text(self@));
        string_from_chars(out.as_slice())
    }
}

impl SearchResultItem {
    /// The search result as one line: `SUBJ CODE - title`.
    pub fn to_string(&self) -> (r: String)
        ensures
            r@ == self.subj_code@ + " "@ + self.course_code@ + " - "@ + self.course_title@ + "\n"@,
    {
        let mut out: Vec<char> = Vec::new();
        push_str(&mut out, self.subj_code.as_str());
        push_str(&mut out, " ");
        push_str(&mut out, self.course_code.as_str());
        push_str(&mut out, " - ");
        push_str(&mut out, self.course_title.as_str());
        push_str(&mut out, "\n");
        string_from_chars(out.as_slice())
    }
}

impl SectionIdNotFoundContext {
    /// Where the section ID was not found: `Schedule`, or `Offered` for the catalog.
    pub fn to_string(&self) -> (r: String)
        ensures
            r@ == (match self {
                SectionIdNotFoundContext::Schedule => "Schedule"@,
                SectionIdNotFoundContext::Catalog => "Offered"@,
            }),
    {
        match self {
            SectionIdNotFoundContext::Schedule => crate::text::copy_string("Schedule"),
            SectionIdNotFoundContext::Catalog => crate::text::copy_string("Offered"),
        }
    }
}

} // verus!
