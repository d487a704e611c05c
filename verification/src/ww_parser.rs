//! Parsing of WebReg's raw responses into the library's cleaned-up values.
use vstd::prelude::*;
use vstd::string::StringSliceAdditionalSpecFns;

use crate::order::{lemma_sorted_unique_contains, sorted_unique, strictly_sorted};
use crate::num::{
    all_digits, digits_value, i64_to_string, int_decimal, nat_bits, nat_digits, parse_i64_chars, spec_parse_i64, u128_digits,
    u32_bits, zero_pad, zero_pad_chars,
};
use crate::text::{join, join_push, lemma_join_push, upper_text, uppercase};
use crate::util::{format_multiple_courses, spec_format_multiple_courses};
use crate::wrapper::input_types::{opt_view, SearchRequestBuilder, SearchRequestView, SearchType};
use crate::types::{EnrollmentStatus, ScheduledSection, ScheduledSectionView, schedule_view};
use crate::grouping::{
    chars_ascending, contains_char, contains_chars, distinct, push_distinct_chars, sort_chars,
    sorted_chars,
};
use crate::raw_types::{
    RawCoursePrerequisite, RawEvent, RawPrerequisite, RawScheduledMeeting, RawWebRegMeeting,
};
use crate::text::{
    chars_eq_str, chars_view, copy_string, digit_char, digit_value, extend_chars, is_digit,
    lemma_chars_view_push, str_chars, string_from_chars, trim, trimmed, trimmed_string,
};
use crate::types::{
    CoursePrerequisite, CoursePrerequisiteView, CourseSection, CourseSectionView, Courses, Event,
    EventView, Meeting, MeetingDay, MeetingDayView, MeetingView, PrerequisiteInfo,
    PrerequisiteInfoView, TimeType, WrapperError, lemma_strs_view_push, meetings_view,
    prereqs_view, sections_view, strs_view,
};
use crate::util::{
    get_all_instructors, get_instructor_names, parse_binary_days, spec_binary_days,
    spec_instructor_names, spec_day_codes, parse_day_code,
};

verus! {

// ---------------------------------------------------------------------------
// Prerequisites
// ---------------------------------------------------------------------------

/// The cleaned form of a course prerequisite: `SUBJ CODE` and its title, trimmed.
pub open spec fn prereq_entry(c: RawCoursePrerequisite) -> CoursePrerequisiteView {
    CoursePrerequisiteView {
        subj_course_id: trim(c.subject_code@) + seq![' '] + trim(c.course_code@),
        course_title: trim(c.course_title@),
    }
}

/// The group IDs of the course prerequisites, in order.
pub open spec fn prereq_group_ids(res: Seq<RawPrerequisite>) -> Seq<Seq<char>>
    decreases res.len(),
{
    if res.len() == 0 {
        Seq::empty()
    } else {
        match res.last() {
            RawPrerequisite::Course(c) => prereq_group_ids(res.drop_last()).push(c.prereq_seq_id@),
            RawPrerequisite::Test(_) => prereq_group_ids(res.drop_last()),
        }
    }
}

/// The course prerequisites of the group `id`, in order.
pub open spec fn prereq_group(res: Seq<RawPrerequisite>, id: Seq<char>) -> Seq<CoursePrerequisiteView>
    decreases res.len(),
{
    if res.len() == 0 {
        Seq::empty()
    } else {
        match res.last() {
            RawPrerequisite::Course(c) => if c.prereq_seq_id@ == id {
                prereq_group(res.drop_last(), id).push(prereq_entry(c))
            } else {
                prereq_group(res.drop_last(), id)
            },
            RawPrerequisite::Test(_) => prereq_group(res.drop_last(), id),
        }
    }
}

/// The trimmed titles of the exam prerequisites, in order.
pub open spec fn exam_titles(res: Seq<RawPrerequisite>) -> Seq<Seq<char>>
    decreases res.len(),
{
    if res.len() == 0 {
        Seq::empty()
    } else {
        match res.last() {
            RawPrerequisite::Course(_) => exam_titles(res.drop_last()),
            RawPrerequisite::Test(t) => exam_titles(res.drop_last()).push(trim(t.test_title@)),
        }
    }
}

/// The prerequisites: one group of courses per distinct group ID (in the
/// order the IDs first appear), any one of which satisfies that requirement,
/// and the exams.
pub open spec fn spec_prerequisites(res: Seq<RawPrerequisite>) -> PrerequisiteInfoView {
    PrerequisiteInfoView {
        course_prerequisites: distinct(prereq_group_ids(res)).map_values(
            |id: Seq<char>| prereq_group(res, id),
        ),
        exam_prerequisites: exam_titles(res),
    }
}

fn prereq_entry_of(c: &RawCoursePrerequisite) -> (r: CoursePrerequisite)
    ensures
        r@ == prereq_entry(*c),
{
    let mut id = trimmed(c.subject_code.as_str());
    id.push(' ');
    let code = trimmed(c.course_code.as_str());
    extend_chars(&mut id, code.as_slice());
    assert(id@ =~= trim(c.subject_code@) + seq![' '] + trim(c.course_code@));
    CoursePrerequisite {
        subj_course_id: string_from_chars(id.as_slice()),
        course_title: trimmed_string(c.course_title.as_str()),
    }
}

/// Processes the vector containing raw prerequisites information.
///
/// # Parameters
/// - `res`: The vector of raw prerequisite objects.
///
/// # Returns
/// The parsed prerequisite information.
pub fn parse_prerequisites(res: Vec<RawPrerequisite>) -> (r: crate::types::Result<PrerequisiteInfo>)
    ensures
        r matches Ok(info) && info@ == spec_prerequisites(res@),
{
    let mut exams: Vec<String> = Vec::new();
    let mut ids: Vec<Vec<char>> = Vec::new();
    let mut i: usize = 0;
    assert(res@.take(0) =~= Seq::<RawPrerequisite>::empty());
    while i < res.len()
        invariant
            i <= res@.len(),
            strs_view(exams@) == exam_titles(res@.take(i as int)),
            chars_view(ids@) == distinct(prereq_group_ids(res@.take(i as int))),
        decreases res@.len() - i,
    {
        assert(res@.take(i + 1).drop_last() =~= res@.take(i as int));
        assert(res@.take(i + 1).last() == res@[i as int]);
        match &res[i] {
            RawPrerequisite::Course(c) => {
                let id = str_chars(c.prereq_seq_id.as_str());
                let ghost prev = prereq_group_ids(res@.take(i as int));
                assert(prereq_group_ids(res@.take(i + 1)) == prev.push(id@));
                assert(prev.push(id@).drop_last() =~= prev);
                push_distinct_chars(&mut ids, id);
            },
            RawPrerequisite::Test(t) => {
                let title = trimmed_string(t.test_title.as_str());
                proof {
                    lemma_strs_view_push(exams@, title);
                }
                exams.push(title);
            },
        }
        i += 1;
    }
    assert(res@.take(res@.len() as int) =~= res@);
    let ghost idv = chars_view(ids@);
    let mut groups: Vec<Vec<CoursePrerequisite>> = Vec::new();
    let mut g: usize = 0;
    while g < ids.len()
        invariant
            g <= ids@.len(),
            idv == chars_view(ids@),
            idv == distinct(prereq_group_ids(res@)),
            groups@.map_values(|v: Vec<CoursePrerequisite>| prereqs_view(v@)) == idv.take(
                g as int,
            ).map_values(|id: Seq<char>| prereq_group(res@, id)),
        decreases ids@.len() - g,
    {
        let mut group: Vec<CoursePrerequisite> = Vec::new();
        let mut j: usize = 0;
        assert(res@.take(0) =~= Seq::<RawPrerequisite>::empty());
        assert(prereqs_view(group@) =~= Seq::<CoursePrerequisiteView>::empty());
        while j < res.len()
            invariant
                j <= res@.len(),
                g < ids@.len(),
                idv == chars_view(ids@),
                prereqs_view(group@) == prereq_group(res@.take(j as int), idv[g as int]),
            decreases res@.len() - j,
        {
            assert(res@.take(j + 1).drop_last() =~= res@.take(j as int));
            assert(res@.take(j + 1).last() == res@[j as int]);
            match &res[j] {
                RawPrerequisite::Course(c) => {
                    if chars_eq_str(ids[g].as_slice(), c.prereq_seq_id.as_str()) {
                        let e = prereq_entry_of(c);
                        let ghost before = prereqs_view(group@);
                        group.push(e);
                        assert(prereqs_view(group@) =~= before.push(e@));
                    }
                },
                RawPrerequisite::Test(_) => {},
            }
            j += 1;
        }
        assert(res@.take(res@.len() as int) =~= res@);
        let ghost before = groups@.map_values(|v: Vec<CoursePrerequisite>| prereqs_view(v@));
        groups.push(group);
        assert(groups@.map_values(|v: Vec<CoursePrerequisite>| prereqs_view(v@)) =~= before.push(
            prereq_group(res@, idv[g as int]),
        ));
        assert(idv.take(g + 1) =~= idv.take(g as int).push(idv[g as int]));
        g += 1;
    }
    assert(idv.take(idv.len() as int) =~= idv);
    let info = PrerequisiteInfo { course_prerequisites: groups, exam_prerequisites: exams };
    assert(info@.course_prerequisites =~= spec_prerequisites(res@).course_prerequisites);
    Ok(info)
}

// ---------------------------------------------------------------------------
// Events
// ---------------------------------------------------------------------------

/// The value of a character read as a decimal digit, zero for any other
/// character (`to_digit(10).unwrap_or_default()`).
pub open spec fn digit_or_zero(c: char) -> int {
    if is_digit(c) {
        digit_value(c)
    } else {
        0
    }
}

/// The hour of an `HHMM` time: the number its first two digits spell.
pub open spec fn hhmm_hour(s: Seq<char>) -> int {
    10 * digit_or_zero(s[0]) + digit_or_zero(s[1])
}

/// The minute of an `HHMM` time: the number its last two digits spell.
pub open spec fn hhmm_minute(s: Seq<char>) -> int {
    10 * digit_or_zero(s[2]) + digit_or_zero(s[3])
}

/// The inputs that [`parse_get_events`] accepts: times of at least four
/// characters, and a day string that is seven characters when it is seven bytes.
pub open spec fn event_well_formed(e: RawEvent) -> bool {
    &&& e.start_time@.len() >= 4
    &&& e.end_time@.len() >= 4
    &&& vstd::utf8::encode_utf8(e.days@).len() == 7 ==> e.days@.len() == 7
}

/// Whether the event `e` is one that [`parse_get_events`] accepts.
pub fn event_ok(e: &RawEvent) -> (r: bool)
    ensures
        r == event_well_formed(*e),
{
    let start = str_chars(e.start_time.as_str());
    let end = str_chars(e.end_time.as_str());
    let day_chars = str_chars(e.days.as_str());
    let day_bytes = e.days.as_str().as_bytes().len();
    start.len() >= 4 && end.len() >= 4 && (day_bytes != 7 || day_chars.len() == 7)
}

/// Whether every event of `raw_events` is one that [`parse_get_events`] accepts.
pub fn events_ok(raw_events: &Vec<RawEvent>) -> (r: bool)
    ensures
        r == forall|i: int| 0 <= i < raw_events@.len() ==> event_well_formed(#[trigger] raw_events@[i]),
{
    let mut i: usize = 0;
    while i < raw_events.len()
        invariant
            i <= raw_events@.len(),
            forall|k: int| 0 <= k < i ==> event_well_formed(#[trigger] raw_events@[k]),
        decreases raw_events@.len() - i,
    {
        if !event_ok(&raw_events[i]) {
            return false;
        }
        i += 1;
    }
    true
}

/// The cleaned form of an event.
pub open spec fn event_entry(e: RawEvent) -> EventView {
    EventView {
        location: e.location@,
        start_hr: hhmm_hour(e.start_time@) as u32,
        start_min: hhmm_minute(e.start_time@) as u32,
        end_hr: hhmm_hour(e.end_time@) as u32,
        end_min: hhmm_minute(e.end_time@) as u32,
        name: e.description@,
        days: spec_binary_days(vstd::utf8::encode_utf8(e.days@).len(), e.days@),
        timestamp: e.time_stamp@,
    }
}

fn digit_or_zero_of(c: char) -> (r: u32)
    ensures
        r as int == digit_or_zero(c),
        r <= 9,
{
    if '0' <= c && c <= '9' {
        (c as u32) - ('0' as u32)
    } else {
        0
    }
}

/// Parses events from the vector of raw events.
///
/// # Parameters
/// - `raw_events`: The raw events.
///
/// # Returns
/// The parsed events.
pub fn parse_get_events(raw_events: Vec<RawEvent>) -> (r: crate::types::Result<crate::types::Events>)
    requires
        forall|i: int| 0 <= i < raw_events@.len() ==> event_well_formed(#[trigger] raw_events@[i]),
    ensures
        r matches Ok(events) && events@.map_values(|e: Event| e@) == raw_events@.map_values(
            |e: RawEvent| event_entry(e),
        ),
{
    let mut res: Vec<Event> = Vec::new();
    let mut i: usize = 0;
    while i < raw_events.len()
        invariant
            i <= raw_events@.len(),
            forall|k: int| 0 <= k < raw_events@.len() ==> event_well_formed(#[trigger] raw_events@[k]),
            res@.map_values(|e: Event| e@) == raw_events@.take(i as int).map_values(
                |e: RawEvent| event_entry(e),
            ),
        decreases raw_events@.len() - i,
    {
        let event = &raw_events[i];
        assert(event_well_formed(raw_events@[i as int]));
        let start_chars = str_chars(event.start_time.as_str());
        let end_chars = str_chars(event.end_time.as_str());
        let start_hr = 10 * digit_or_zero_of(start_chars[0]) + digit_or_zero_of(start_chars[1]);
        let start_min = 10 * digit_or_zero_of(start_chars[2]) + digit_or_zero_of(start_chars[3]);
        let end_hr = 10 * digit_or_zero_of(end_chars[0]) + digit_or_zero_of(end_chars[1]);
        let end_min = 10 * digit_or_zero_of(end_chars[2]) + digit_or_zero_of(end_chars[3]);
        let e = Event {
            location: copy_string(event.location.as_str()),
            start_hr,
            start_min,
            end_hr,
            end_min,
            name: copy_string(event.description.as_str()),
            days: parse_binary_days(event.days.as_str()),
            timestamp: copy_string(event.time_stamp.as_str()),
        };
        let ghost before = res@.map_values(|e: Event| e@);
        res.push(e);
        assert(res@.map_values(|e: Event| e@) =~= before.push(e@));
        assert(raw_events@.take(i + 1).map_values(|e: RawEvent| event_entry(e)) =~= raw_events@.take(
            i as int,
        ).map_values(|e: RawEvent| event_entry(e)).push(event_entry(raw_events@[i as int])));
        i += 1;
    }
    assert(raw_events@.take(raw_events@.len() as int) =~= raw_events@);
    Ok(res)
}

} // verus!

verus! {

// ---------------------------------------------------------------------------
// Enrollment counts
// ---------------------------------------------------------------------------

/// `max(x, 0)`.
pub open spec fn max0(x: i64) -> i64 {
    if x > 0 {
        x
    } else {
        0
    }
}

/// The characters `AC`: the display type of an enrollable section.
pub open spec fn ac() -> Seq<char> {
    seq!['A', 'C']
}

/// The characters `NC`: the display type of a meeting that is not enrollable.
pub open spec fn nc() -> Seq<char> {
    seq!['N', 'C']
}

/// The characters `CA`: the display type of a canceled meeting.
pub open spec fn ca() -> Seq<char> {
    seq!['C', 'A']
}

/// No meeting before the `i`-th has its section code.
pub open spec fn is_first_code(ms: Seq<RawWebRegMeeting>, i: int) -> bool {
    forall|j: int| 0 <= j < i ==> ms[j].sect_code@ != ms[i].sect_code@
}

/// The enrollment figures of a section, from one of its meetings, without meetings.
pub open spec fn count_entry(m: RawWebRegMeeting, subj: Seq<char>) -> CourseSectionView {
    CourseSectionView {
        subj_course_id: subj,
        section_id: trim(m.section_id@),
        section_code: trim(m.sect_code@),
        all_instructors: spec_instructor_names(m.person_full_name@),
        available_seats: max0(m.avail_seat),
        enrolled_ct: m.enrolled_count,
        total_seats: m.section_capacity,
        waitlist_ct: m.count_on_waitlist,
        meetings: Seq::empty(),
        is_visible: m.spec_is_visible(),
    }
}

/// The enrollment counts: for each section code, its first meeting, kept if
/// it is enrollable (display type `AC`).
pub open spec fn spec_enrollment_count(ms: Seq<RawWebRegMeeting>, subj: Seq<char>) -> Seq<CourseSectionView>
    decreases ms.len(),
{
    if ms.len() == 0 {
        Seq::empty()
    } else {
        let p = spec_enrollment_count(ms.drop_last(), subj);
        let k = ms.len() - 1;
        if is_first_code(ms, k) && ms[k].display_type@ == ac() {
            p.push(count_entry(ms[k], subj))
        } else {
            p
        }
    }
}

fn count_entry_of(m: &RawWebRegMeeting, subj: &str) -> (r: CourseSection)
    ensures
        r@ == count_entry(*m, subj@),
{
    let r = CourseSection {
        is_visible: m.is_visible(),
        subj_course_id: copy_string(subj),
        section_id: trimmed_string(m.section_id.as_str()),
        section_code: trimmed_string(m.sect_code.as_str()),
        all_instructors: get_instructor_names(m.person_full_name.as_str()),
        available_seats: if m.avail_seat > 0 { m.avail_seat } else { 0 },
        enrolled_ct: m.enrolled_count,
        total_seats: m.section_capacity,
        waitlist_ct: m.count_on_waitlist,
        meetings: Vec::new(),
    };
    assert(r@.meetings =~= Seq::<MeetingView>::empty());
    r
}

/// Whether a display type is the given two characters.
fn display_is(m: &RawWebRegMeeting, a: char, b: char) -> (r: bool)
    ensures
        r == (m.display_type@ == seq![a, b]),
{
    let d = str_chars(m.display_type.as_str());
    let r = d.len() == 2 && d[0] == a && d[1] == b;
    proof {
        if d@.len() == 2 && d@[0] == a && d@[1] == b {
            assert(d@ =~= seq![a, b]);
        }
    }
    r
}

/// Processes the vector containing raw meeting information into enrollment
/// count data.
///
/// # Parameters
/// - `meetings`: The vector of meetings.
/// - `subj_num`: The subject course number (e.g., `CSE 100`).
///
/// # Returns
/// The parsed enrollment count information. Note that this function will
/// return a vector of course sections, but most information are not filled out.
pub fn parse_enrollment_count(meetings: Vec<RawWebRegMeeting>, subj_num: String) -> (r: crate::types::Result<Courses>)
    ensures
        r matches Ok(secs) && sections_view(secs@) == spec_enrollment_count(meetings@, subj_num@),
{
    let mut out: Vec<CourseSection> = Vec::new();
    let mut seen: Vec<Vec<char>> = Vec::new();
    let mut i: usize = 0;
    assert(meetings@.take(0) =~= Seq::<RawWebRegMeeting>::empty());
    while i < meetings.len()
        invariant
            i <= meetings@.len(),
            chars_view(seen@) == meetings@.take(i as int).map_values(|m: RawWebRegMeeting| m.sect_code@),
            sections_view(out@) == spec_enrollment_count(meetings@.take(i as int), subj_num@),
        decreases meetings@.len() - i,
    {
        let m = &meetings[i];
        let ghost pre = meetings@.take(i + 1);
        assert(pre.drop_last() =~= meetings@.take(i as int));
        assert(pre[i as int] == meetings@[i as int]);
        let code = str_chars(m.sect_code.as_str());
        let dup = contains_chars(&seen, code.as_slice());
        proof {
            if dup {
                let j = choose|j: int| 0 <= j < chars_view(seen@).len() && chars_view(seen@)[j] == code@;
                assert(pre[j] == meetings@[j]);
                assert(!is_first_code(pre, i as int));
            } else {
                assert forall|j: int| 0 <= j < i implies pre[j].sect_code@ != pre[i as int].sect_code@ by {
                    assert(chars_view(seen@)[j] == meetings@[j].sect_code@);
                }
            }
        }
        if !dup && display_is(m, 'A', 'C') {
            let e = count_entry_of(m, subj_num.as_str());
            let ghost before = sections_view(out@);
            out.push(e);
            assert(sections_view(out@) =~= before.push(e@));
        }
        proof {
            lemma_chars_view_push(seen@, code);
            assert(meetings@.take(i + 1).map_values(|m: RawWebRegMeeting| m.sect_code@) =~= meetings@.take(
                i as int,
            ).map_values(|m: RawWebRegMeeting| m.sect_code@).push(code@));
        }
        seen.push(code);
        i += 1;
    }
    assert(meetings@.take(meetings@.len() as int) =~= meetings@);
    Ok(out)
}

} // verus!

verus! {

// ---------------------------------------------------------------------------
// Outcomes of a parse
// ---------------------------------------------------------------------------

/// Why a parse gives up.
pub enum ParseFailure {
    /// A time (hour or minute) is negative: [`WrapperError::BadTimeError`].
    BadTime,
    /// A section of the schedule has no meeting with its enrollment figures:
    /// [`WrapperError::WrapperParsingError`].
    Deformed,
}

/// The outcome of a parse, step by step: a value so far, a failure that the
/// parse reports as an error, or a crash (an input that the parse does not
/// accept).
pub enum Outcome<T> {
    Done(T),
    Failed(ParseFailure),
    Crashed,
}

/// The error that a failure is reported as.
pub open spec fn failure_error(f: ParseFailure, e: WrapperError) -> bool {
    match f {
        ParseFailure::BadTime => e is BadTimeError,
        ParseFailure::Deformed => e matches WrapperError::WrapperParsingError(msg)
            && msg@ == seq!['s', 'c', 'h', 'e', 'd', 'u', 'l', 'e', ' ', 'i', 's', ' ', 'd', 'e', 'f', 'o', 'r', 'm', 'e', 'd'],
    }
}

/// The result that a parse with outcome `o` returns, through `view` for the value.
pub open spec fn result_matches<T, V>(r: crate::types::Result<T>, o: Outcome<V>, view: spec_fn(T) -> V) -> bool {
    match o {
        Outcome::Done(v) => r matches Ok(x) && view(x) == v,
        Outcome::Failed(f) => r matches Err(e) && failure_error(f, e),
        Outcome::Crashed => false,
    }
}

/// An executable parse outcome.
pub enum Parsed<T> {
    Value(T),
    Error(WrapperError),
    Crash,
}

/// An executable outcome `p` that matches the outcome `o`, through `view`.
pub open spec fn parsed_matches<T, V>(p: Parsed<T>, o: Outcome<V>, view: spec_fn(T) -> V) -> bool {
    match o {
        Outcome::Done(v) => p matches Parsed::Value(x) && view(x) == v,
        Outcome::Failed(f) => p matches Parsed::Error(e) && failure_error(f, e),
        Outcome::Crashed => p is Crash,
    }
}

// ---------------------------------------------------------------------------
// Meetings of course listings
// ---------------------------------------------------------------------------

/// All four times of a meeting are non-negative (so that they fit a [`TimeType`]).
pub open spec fn listing_times_ok(m: RawWebRegMeeting) -> bool {
    m.start_time_hr >= 0 && m.start_time_min >= 0 && m.end_time_hr >= 0 && m.end_time_min >= 0
}

/// The cleaned form of a meeting of a course listing.
pub open spec fn listing_meeting(m: RawWebRegMeeting) -> MeetingView {
    MeetingView {
        meeting_type: crate::util::spec_meeting_type_date(m).0,
        meeting_days: crate::util::spec_meeting_type_date(m).1,
        start_hr: m.start_time_hr as u32,
        start_min: m.start_time_min as u32,
        end_hr: m.end_time_hr as u32,
        end_min: m.end_time_min as u32,
        building: trim(m.bldg_code@),
        room: trim(m.room_code@),
        instructors: spec_instructor_names(m.person_full_name@),
    }
}

/// Adds the meeting `m` to the meetings parsed so far: the parse crashes on a
/// meeting whose type and date are not defined, and fails on a negative time.
pub open spec fn listing_meeting_step(acc: Outcome<Seq<MeetingView>>, m: RawWebRegMeeting) -> Outcome<Seq<MeetingView>> {
    match acc {
        Outcome::Done(v) => if !crate::util::meeting_type_date_defined(m) {
            Outcome::Crashed
        } else if !listing_times_ok(m) {
            Outcome::Failed(ParseFailure::BadTime)
        } else {
            Outcome::Done(v.push(listing_meeting(m)))
        },
        _ => acc,
    }
}

/// The meetings of `list`, parsed in order.
pub open spec fn listing_meetings(list: Seq<RawWebRegMeeting>) -> Outcome<Seq<MeetingView>>
    decreases list.len(),
{
    if list.len() == 0 {
        Outcome::Done(Seq::empty())
    } else {
        listing_meeting_step(listing_meetings(list.drop_last()), list.last())
    }
}

pub proof fn lemma_listing_meetings_absorb(list: Seq<RawWebRegMeeting>, k: int)
    requires
        0 <= k <= list.len(),
        !(listing_meetings(list.take(k)) is Done),
    ensures
        listing_meetings(list) == listing_meetings(list.take(k)),
    decreases list.len() - k,
{
    if k < list.len() {
        assert(list.drop_last().take(k) =~= list.take(k));
        lemma_listing_meetings_absorb(list.drop_last(), k);
    } else {
        assert(list.take(k) =~= list);
    }
}

/// The meetings that `idxs` picks from `ms`.
pub open spec fn picked<A>(ms: Seq<A>, idxs: Seq<usize>) -> Seq<A> {
    idxs.map_values(|k: usize| ms[k as int])
}

fn time_of(x: i16) -> (r: u32)
    requires
        x >= 0,
    ensures
        r == x as u32,
{
    x as u32
}

/// Parses one meeting of a course listing.
fn listing_meeting_of(m: &RawWebRegMeeting) -> (r: Parsed<Meeting>)
    ensures
        !crate::util::meeting_type_date_defined(*m) ==> r is Crash,
        crate::util::meeting_type_date_defined(*m) && !listing_times_ok(*m) ==> (r matches Parsed::Error(e) && e is BadTimeError),
        crate::util::meeting_type_date_defined(*m) && listing_times_ok(*m) ==> (r matches Parsed::Value(mt) && mt@ == listing_meeting(*m)),
{
    match crate::util::try_parse_meeting_type_date(m) {
        None => Parsed::Crash,
        Some((m_type, m_days)) => {
            if m.start_time_hr < 0 || m.start_time_min < 0 || m.end_time_hr < 0 || m.end_time_min < 0 {
                return Parsed::Error(WrapperError::BadTimeError);
            }
            Parsed::Value(Meeting {
                meeting_type: m_type,
                meeting_days: m_days,
                building: trimmed_string(m.bldg_code.as_str()),
                room: trimmed_string(m.room_code.as_str()),
                start_hr: time_of(m.start_time_hr),
                start_min: time_of(m.start_time_min),
                end_hr: time_of(m.end_time_hr),
                end_min: time_of(m.end_time_min),
                instructors: get_instructor_names(m.person_full_name.as_str()),
            })
        },
    }
}

/// Parses, in order, the meetings that `idxs` picks from `ms`.
fn listing_meetings_of(ms: &Vec<RawWebRegMeeting>, idxs: &Vec<usize>) -> (r: Parsed<Vec<Meeting>>)
    requires
        forall|j: int| 0 <= j < idxs@.len() ==> #[trigger] idxs@[j] < ms@.len(),
    ensures
        parsed_matches(r, listing_meetings(picked(ms@, idxs@)), |v: Vec<Meeting>| meetings_view(v@)),
{
    let ghost list = picked(ms@, idxs@);
    let mut out: Vec<Meeting> = Vec::new();
    let mut j: usize = 0;
    assert(list.take(0) =~= Seq::<RawWebRegMeeting>::empty());
    assert(meetings_view(out@) =~= Seq::<MeetingView>::empty());
    while j < idxs.len()
        invariant
            j <= idxs@.len(),
            list == picked(ms@, idxs@),
            forall|k: int| 0 <= k < idxs@.len() ==> #[trigger] idxs@[k] < ms@.len(),
            listing_meetings(list.take(j as int)) == Outcome::Done(meetings_view(out@)),
        decreases idxs@.len() - j,
    {
        let k = idxs[j];
        let m = &ms[k];
        assert(list.take(j + 1).drop_last() =~= list.take(j as int));
        assert(list.take(j + 1).last() == ms@[k as int]);
        match listing_meeting_of(m) {
            Parsed::Value(mt) => {
                let ghost before = meetings_view(out@);
                out.push(mt);
                assert(meetings_view(out@) =~= before.push(mt@));
            },
            Parsed::Error(e) => {
                proof {
                    lemma_listing_meetings_absorb(list, j + 1);
                }
                return Parsed::Error(e);
            },
            Parsed::Crash => {
                proof {
                    lemma_listing_meetings_absorb(list, j + 1);
                }
                return Parsed::Crash;
            },
        }
        j += 1;
    }
    assert(list.take(list.len() as int) =~= list);
    Parsed::Value(out)
}

} // verus!

verus! {

// ---------------------------------------------------------------------------
// Course listings
// ---------------------------------------------------------------------------

/// Appends what `o` parsed to `v`, or passes on its failure.
pub open spec fn after<A>(v: Seq<A>, o: Outcome<Seq<A>>) -> Outcome<Seq<A>> {
    match o {
        Outcome::Done(w) => Outcome::Done(v + w),
        Outcome::Failed(f) => Outcome::Failed(f),
        Outcome::Crashed => Outcome::Crashed,
    }
}

/// A meeting that a course listing passes over: a canceled one (display type
/// `CA`), or one without a section code.
pub open spec fn listing_skipped(m: RawWebRegMeeting) -> bool {
    m.display_type@ == ca() || trim(m.sect_code@).len() == 0
}

/// A meeting of a special section: its section code starts with a digit (e.g. `001`).
pub open spec fn listing_special(m: RawWebRegMeeting) -> bool {
    m.sect_code@.len() > 0 && is_digit(m.sect_code@[0])
}

/// A meeting that is grouped by its section family.
pub open spec fn listing_grouped(m: RawWebRegMeeting) -> bool {
    !listing_skipped(m) && !listing_special(m)
}

/// A section of a course listing whose figures come from the meeting `m`.
pub open spec fn listing_section(
    m: RawWebRegMeeting,
    subj: Seq<char>,
    section_id: Seq<char>,
    section_code: Seq<char>,
    instructors: Seq<Seq<char>>,
    meetings: Seq<MeetingView>,
) -> CourseSectionView {
    CourseSectionView {
        subj_course_id: subj,
        section_id: section_id,
        section_code: section_code,
        all_instructors: instructors,
        available_seats: max0(m.avail_seat),
        enrolled_ct: m.enrolled_count,
        total_seats: m.section_capacity,
        waitlist_ct: m.count_on_waitlist,
        meetings: meetings,
        is_visible: m.spec_is_visible(),
    }
}

/// The section that the meeting `m` of a special section makes: its trimmed
/// id and code, its instructors, and `m` as its one meeting.
pub open spec fn special_section(m: RawWebRegMeeting, subj: Seq<char>) -> Outcome<Seq<CourseSectionView>> {
    if !crate::util::meeting_type_date_defined(m) {
        Outcome::Crashed
    } else if !listing_times_ok(m) {
        Outcome::Failed(ParseFailure::BadTime)
    } else {
        Outcome::Done(
            seq![
                listing_section(
                    m,
                    subj,
                    trim(m.section_id@),
                    trim(m.sect_code@),
                    spec_instructor_names(m.person_full_name@),
                    seq![listing_meeting(m)],
                ),
            ],
        )
    }
}

/// The special sections of `ms`, in order.
pub open spec fn special_sections(ms: Seq<RawWebRegMeeting>, subj: Seq<char>) -> Outcome<Seq<CourseSectionView>>
    decreases ms.len(),
{
    if ms.len() == 0 {
        Outcome::Done(Seq::empty())
    } else {
        let acc = special_sections(ms.drop_last(), subj);
        let m = ms.last();
        match acc {
            Outcome::Done(v) => if listing_grouped(m) || listing_skipped(m) {
                acc
            } else {
                after(v, special_section(m, subj))
            },
            _ => acc,
        }
    }
}

/// The meetings of `ms` that are grouped by section family, in order.
pub open spec fn listing_rest(ms: Seq<RawWebRegMeeting>) -> Seq<RawWebRegMeeting>
    decreases ms.len(),
{
    if ms.len() == 0 {
        Seq::empty()
    } else if listing_grouped(ms.last()) {
        listing_rest(ms.drop_last()).push(ms.last())
    } else {
        listing_rest(ms.drop_last())
    }
}

/// The section family of a meeting: the first character of its section code.
pub open spec fn family(m: RawWebRegMeeting) -> char {
    m.sect_code@[0]
}

/// The section code ends with `00` (a lecture, final exam and the like).
pub open spec fn ends_00(s: Seq<char>) -> bool {
    s.len() >= 2 && s[s.len() - 2] == '0' && s[s.len() - 1] == '0'
}

/// A meeting that every section of its family shares: its code ends with
/// `00`, or it cannot be enrolled in (display type `NC`).
pub open spec fn is_general(m: RawWebRegMeeting) -> bool {
    ends_00(m.sect_code@) || m.display_type@ == nc()
}

/// A meeting that makes a section of its own: its code does not end with `00`
/// and it can be enrolled in (display type `AC`).
pub open spec fn is_child(m: RawWebRegMeeting) -> bool {
    !ends_00(m.sect_code@) && m.display_type@ == ac()
}

/// The meetings of family `k` in `rest`, in order: the general ones, or the child ones.
pub open spec fn select(rest: Seq<RawWebRegMeeting>, k: char, general: bool) -> Seq<RawWebRegMeeting>
    decreases rest.len(),
{
    if rest.len() == 0 {
        Seq::empty()
    } else {
        let m = rest.last();
        let p = select(rest.drop_last(), k, general);
        if family(m) == k && (if general { is_general(m) } else { is_child(m) }) {
            p.push(m)
        } else {
            p
        }
    }
}

/// The section families of `rest`, in ascending order.
pub open spec fn families(rest: Seq<RawWebRegMeeting>) -> Seq<char> {
    sorted_chars(rest.map_values(|m: RawWebRegMeeting| family(m)))
}

/// The instructors of each meeting of `list`, one after the other.
pub open spec fn all_names(list: Seq<RawWebRegMeeting>) -> Seq<Seq<char>>
    decreases list.len(),
{
    if list.len() == 0 {
        Seq::empty()
    } else {
        all_names(list.drop_last()) + spec_instructor_names(list.last().person_full_name@)
    }
}

/// The sections that the child meetings `child` make, each with the general
/// meetings `gen` followed by the child meeting.
pub open spec fn child_sections(
    gen: Seq<RawWebRegMeeting>,
    child: Seq<RawWebRegMeeting>,
    subj: Seq<char>,
) -> Outcome<Seq<CourseSectionView>>
    decreases child.len(),
{
    if child.len() == 0 {
        Outcome::Done(Seq::empty())
    } else {
        match child_sections(gen, child.drop_last(), subj) {
            Outcome::Done(v) => {
                let c = child.last();
                match listing_meetings(gen.push(c)) {
                    Outcome::Done(mts) => Outcome::Done(
                        v.push(
                            listing_section(
                                c,
                                subj,
                                c.section_id@,
                                c.sect_code@,
                                sorted_unique(
                                    sorted_unique(all_names(gen)) + spec_instructor_names(
                                        c.person_full_name@,
                                    ),
                                ),
                                mts,
                            ),
                        ),
                    ),
                    Outcome::Failed(f) => Outcome::Failed(f),
                    Outcome::Crashed => Outcome::Crashed,
                }
            },
            other => other,
        }
    }
}

/// The sections of one family: none without general meetings; one from the
/// first general meeting when there is no child meeting; else one per child meeting.
pub open spec fn family_sections(
    gen: Seq<RawWebRegMeeting>,
    child: Seq<RawWebRegMeeting>,
    subj: Seq<char>,
) -> Outcome<Seq<CourseSectionView>> {
    if gen.len() == 0 {
        Outcome::Done(Seq::empty())
    } else if child.len() == 0 {
        match listing_meetings(gen) {
            Outcome::Done(mts) => Outcome::Done(
                seq![
                    listing_section(
                        gen[0],
                        subj,
                        gen[0].section_id@,
                        gen[0].sect_code@,
                        spec_instructor_names(gen[0].person_full_name@),
                        mts,
                    ),
                ],
            ),
            Outcome::Failed(f) => Outcome::Failed(f),
            Outcome::Crashed => Outcome::Crashed,
        }
    } else {
        child_sections(gen, child, subj)
    }
}

/// The sections of the families `keys` of `rest`, family after family.
pub open spec fn families_sections(rest: Seq<RawWebRegMeeting>, keys: Seq<char>, subj: Seq<char>) -> Outcome<Seq<CourseSectionView>>
    decreases keys.len(),
{
    if keys.len() == 0 {
        Outcome::Done(Seq::empty())
    } else {
        match families_sections(rest, keys.drop_last(), subj) {
            Outcome::Done(v) => after(
                v,
                family_sections(select(rest, keys.last(), true), select(rest, keys.last(), false), subj),
            ),
            other => other,
        }
    }
}

/// The course listing of `ms`: the special sections in order, then the
/// sections of each family in ascending order of family.
pub open spec fn spec_course_info(ms: Seq<RawWebRegMeeting>, subj: Seq<char>) -> Outcome<Seq<CourseSectionView>> {
    match special_sections(ms, subj) {
        Outcome::Done(v) => {
            let rest = listing_rest(ms);
            after(v, families_sections(rest, families(rest), subj))
        },
        other => other,
    }
}

proof fn lemma_special_sections_absorb(ms: Seq<RawWebRegMeeting>, subj: Seq<char>, k: int)
    requires
        0 <= k <= ms.len(),
        !(special_sections(ms.take(k), subj) is Done),
    ensures
        special_sections(ms, subj) == special_sections(ms.take(k), subj),
    decreases ms.len() - k,
{
    if k < ms.len() {
        assert(ms.drop_last().take(k) =~= ms.take(k));
        lemma_special_sections_absorb(ms.drop_last(), subj, k);
    } else {
        assert(ms.take(k) =~= ms);
    }
}

proof fn lemma_child_sections_absorb(
    gen: Seq<RawWebRegMeeting>,
    child: Seq<RawWebRegMeeting>,
    subj: Seq<char>,
    k: int,
)
    requires
        0 <= k <= child.len(),
        !(child_sections(gen, child.take(k), subj) is Done),
    ensures
        child_sections(gen, child, subj) == child_sections(gen, child.take(k), subj),
    decreases child.len() - k,
{
    if k < child.len() {
        assert(child.drop_last().take(k) =~= child.take(k));
        lemma_child_sections_absorb(gen, child.drop_last(), subj, k);
    } else {
        assert(child.take(k) =~= child);
    }
}

proof fn lemma_families_sections_absorb(rest: Seq<RawWebRegMeeting>, keys: Seq<char>, subj: Seq<char>, k: int)
    requires
        0 <= k <= keys.len(),
        !(families_sections(rest, keys.take(k), subj) is Done),
    ensures
        families_sections(rest, keys, subj) == families_sections(rest, keys.take(k), subj),
    decreases keys.len() - k,
{
    if k < keys.len() {
        assert(keys.drop_last().take(k) =~= keys.take(k));
        lemma_families_sections_absorb(rest, keys.drop_last(), subj, k);
    } else {
        assert(keys.take(k) =~= keys);
    }
}

proof fn lemma_trim_empty(s: Seq<char>)
    requires
        s.len() == 0,
    ensures
        trim(s).len() == 0,
{
    assert(crate::text::trim_start(s) == s);
    assert(crate::text::trim_end(s) == s);
}

/// A section of a course listing from the meeting `m` and the given parts.
fn section_of(
    m: &RawWebRegMeeting,
    subj: &str,
    section_id: String,
    section_code: String,
    instructors: Vec<String>,
    meetings: Vec<Meeting>,
) -> (r: CourseSection)
    ensures
        r@ == listing_section(
            *m,
            subj@,
            section_id@,
            section_code@,
            strs_view(instructors@),
            meetings_view(meetings@),
        ),
{
    CourseSection {
        is_visible: m.is_visible(),
        subj_course_id: copy_string(subj),
        section_id: section_id,
        section_code: section_code,
        all_instructors: instructors,
        available_seats: if m.avail_seat > 0 {
            m.avail_seat
        } else {
            0
        },
        enrolled_ct: m.enrolled_count,
        total_seats: m.section_capacity,
        waitlist_ct: m.count_on_waitlist,
        meetings: meetings,
    }
}

/// Appends copies of the strings of `src` to `dst`.
fn append_strs(dst: &mut Vec<String>, src: &Vec<String>)
    ensures
        strs_view(final(dst)@) == strs_view(old(dst)@) + strs_view(src@),
{
    let ghost start = strs_view(dst@);
    let mut i: usize = 0;
    while i < src.len()
        invariant
            i <= src@.len(),
            strs_view(dst@) == start + strs_view(src@).take(i as int),
        decreases src@.len() - i,
    {
        let s = copy_string(src[i].as_str());
        proof {
            lemma_strs_view_push(dst@, s);
            assert(start + strs_view(src@).take(i + 1) =~= (start + strs_view(src@).take(i as int)).push(s@));
        }
        dst.push(s);
        i += 1;
    }
    assert(strs_view(src@).take(src@.len() as int) =~= strs_view(src@));
}

/// `v` with `k` appended.
fn with_index(v: &Vec<usize>, k: usize) -> (r: Vec<usize>)
    ensures
        r@ == v@.push(k),
{
    let mut r: Vec<usize> = Vec::new();
    let mut i: usize = 0;
    while i < v.len()
        invariant
            i <= v@.len(),
            r@ == v@.take(i as int),
        decreases v@.len() - i,
    {
        r.push(v[i]);
        assert(v@.take(i + 1) =~= v@.take(i as int).push(v@[i as int]));
        i += 1;
    }
    assert(v@.take(v@.len() as int) =~= v@);
    r.push(k);
    r
}

} // verus!

verus! {

/// Whether a section code ends with `00`.
fn chars_end_00(s: &Vec<char>) -> (r: bool)
    ensures
        r == ends_00(s@),
{
    s.len() >= 2 && s[s.len() - 2] == '0' && s[s.len() - 1] == '0'
}

/// The general and the child meetings of family `k` among the meetings that
/// `rest` picks from `ms`.
fn family_indices(ms: &Vec<RawWebRegMeeting>, rest: &Vec<usize>, k: char) -> (r: (Vec<usize>, Vec<usize>))
    requires
        forall|j: int| 0 <= j < rest@.len() ==> #[trigger] rest@[j] < ms@.len(),
        forall|j: int| 0 <= j < rest@.len() ==> listing_grouped(#[trigger] ms@[rest@[j] as int]),
    ensures
        picked(ms@, r.0@) == select(picked(ms@, rest@), k, true),
        picked(ms@, r.1@) == select(picked(ms@, rest@), k, false),
        forall|j: int| 0 <= j < r.0@.len() ==> #[trigger] r.0@[j] < ms@.len(),
        forall|j: int| 0 <= j < r.1@.len() ==> #[trigger] r.1@[j] < ms@.len(),
{
    let ghost list = picked(ms@, rest@);
    let mut g: Vec<usize> = Vec::new();
    let mut c: Vec<usize> = Vec::new();
    let mut j: usize = 0;
    assert(list.take(0) =~= Seq::<RawWebRegMeeting>::empty());
    assert(picked(ms@, g@) =~= Seq::<RawWebRegMeeting>::empty());
    assert(picked(ms@, c@) =~= Seq::<RawWebRegMeeting>::empty());
    while j < rest.len()
        invariant
            j <= rest@.len(),
            list == picked(ms@, rest@),
            forall|q: int| 0 <= q < rest@.len() ==> #[trigger] rest@[q] < ms@.len(),
            forall|q: int| 0 <= q < rest@.len() ==> listing_grouped(#[trigger] ms@[rest@[q] as int]),
            picked(ms@, g@) == select(list.take(j as int), k, true),
            picked(ms@, c@) == select(list.take(j as int), k, false),
            forall|q: int| 0 <= q < g@.len() ==> #[trigger] g@[q] < ms@.len(),
            forall|q: int| 0 <= q < c@.len() ==> #[trigger] c@[q] < ms@.len(),
        decreases rest@.len() - j,
    {
        let x = rest[j];
        let m = &ms[x];
        assert(list.take(j + 1).drop_last() =~= list.take(j as int));
        assert(list.take(j + 1).last() == ms@[x as int]);
        assert(listing_grouped(ms@[rest@[j as int] as int]));
        let code = str_chars(m.sect_code.as_str());
        proof {
            if code@.len() == 0 {
                lemma_trim_empty(code@);
            }
        }
        if code[0] == k {
            let e00 = chars_end_00(&code);
            if e00 || display_is(m, 'N', 'C') {
                assert(picked(ms@, g@.push(x)) =~= picked(ms@, g@).push(ms@[x as int]));
                g.push(x);
            } else if display_is(m, 'A', 'C') {
                assert(picked(ms@, c@.push(x)) =~= picked(ms@, c@).push(ms@[x as int]));
                c.push(x);
            }
        }
        j += 1;
    }
    assert(list.take(list.len() as int) =~= list);
    (g, c)
}

/// The sections of one family, from its general meetings `gidx` and child
/// meetings `cidx` (indices into `ms`).
fn family_sections_of(ms: &Vec<RawWebRegMeeting>, gidx: &Vec<usize>, cidx: &Vec<usize>, subj: &str) -> (r: Parsed<Vec<CourseSection>>)
    requires
        forall|j: int| 0 <= j < gidx@.len() ==> #[trigger] gidx@[j] < ms@.len(),
        forall|j: int| 0 <= j < cidx@.len() ==> #[trigger] cidx@[j] < ms@.len(),
    ensures
        parsed_matches(
            r,
            family_sections(picked(ms@, gidx@), picked(ms@, cidx@), subj@),
            |v: Vec<CourseSection>| sections_view(v@),
        ),
{
    let ghost gen = picked(ms@, gidx@);
    let ghost child = picked(ms@, cidx@);
    if gidx.len() == 0 {
        let out: Vec<CourseSection> = Vec::new();
        assert(sections_view(out@) =~= Seq::<CourseSectionView>::empty());
        return Parsed::Value(out);
    }
    if cidx.len() == 0 {
        match listing_meetings_of(ms, gidx) {
            Parsed::Value(mts) => {
                let g0 = &ms[gidx[0]];
                assert(gen[0] == ms@[gidx@[0] as int]);
                let s = section_of(
                    g0,
                    subj,
                    copy_string(g0.section_id.as_str()),
                    copy_string(g0.sect_code.as_str()),
                    get_instructor_names(g0.person_full_name.as_str()),
                    mts,
                );
                let mut out: Vec<CourseSection> = Vec::new();
                out.push(s);
                assert(sections_view(out@) =~= seq![s@]);
                return Parsed::Value(out);
            },
            Parsed::Error(e) => {
                return Parsed::Error(e);
            },
            Parsed::Crash => {
                return Parsed::Crash;
            },
        }
    }
    // The instructors of the general meetings.

    let mut names: Vec<String> = Vec::new();
    let mut j: usize = 0;
    assert(gen.take(0) =~= Seq::<RawWebRegMeeting>::empty());
    assert(strs_view(names@) =~= Seq::<Seq<char>>::empty());
    while j < gidx.len()
        invariant
            j <= gidx@.len(),
            gen == picked(ms@, gidx@),
            forall|q: int| 0 <= q < gidx@.len() ==> #[trigger] gidx@[q] < ms@.len(),
            strs_view(names@) == all_names(gen.take(j as int)),
        decreases gidx@.len() - j,
    {
        let m = &ms[gidx[j]];
        let more = get_instructor_names(m.person_full_name.as_str());
        assert(gen.take(j + 1).drop_last() =~= gen.take(j as int));
        assert(gen.take(j + 1).last() == ms@[gidx@[j as int] as int]);
        append_strs(&mut names, &more);
        j += 1;
    }
    assert(gen.take(gen.len() as int) =~= gen);
    let base = get_all_instructors(names);
    let mut out: Vec<CourseSection> = Vec::new();
    let mut q: usize = 0;
    assert(child.take(0) =~= Seq::<RawWebRegMeeting>::empty());
    assert(sections_view(out@) =~= Seq::<CourseSectionView>::empty());
    while q < cidx.len()
        invariant
            q <= cidx@.len(),
            gen == picked(ms@, gidx@),
            child == picked(ms@, cidx@),
            gen.len() > 0,
            forall|p: int| 0 <= p < gidx@.len() ==> #[trigger] gidx@[p] < ms@.len(),
            forall|p: int| 0 <= p < cidx@.len() ==> #[trigger] cidx@[p] < ms@.len(),
            strs_view(base@) == sorted_unique(all_names(gen)),
            child_sections(gen, child.take(q as int), subj@) == Outcome::Done(sections_view(out@)),
        decreases cidx@.len() - q,
    {
        let ci = cidx[q];
        let c = &ms[ci];
        assert(child.take(q + 1).drop_last() =~= child.take(q as int));
        assert(child.take(q + 1).last() == ms@[ci as int]);
        let mut inst: Vec<String> = Vec::new();
        append_strs(&mut inst, &base);
        let own = get_instructor_names(c.person_full_name.as_str());
        append_strs(&mut inst, &own);
        assert(strs_view(inst@) =~= sorted_unique(all_names(gen)) + spec_instructor_names(c.person_full_name@));
        let inst = get_all_instructors(inst);
        let idxs = with_index(gidx, ci);
        assert(picked(ms@, idxs@) =~= gen.push(ms@[ci as int]));
        match listing_meetings_of(ms, &idxs) {
            Parsed::Value(mts) => {
                let s = section_of(
                    c,
                    subj,
                    copy_string(c.section_id.as_str()),
                    copy_string(c.sect_code.as_str()),
                    inst,
                    mts,
                );
                let ghost before = sections_view(out@);
                out.push(s);
                assert(sections_view(out@) =~= before.push(s@));
            },
            Parsed::Error(e) => {
                proof {
                    lemma_child_sections_absorb(gen, child, subj@, q + 1);
                }
                return Parsed::Error(e);
            },
            Parsed::Crash => {
                proof {
                    lemma_child_sections_absorb(gen, child, subj@, q + 1);
                }
                return Parsed::Crash;
            },
        }
        q += 1;
    }
    assert(child.take(child.len() as int) =~= child);
    Parsed::Value(out)
}

} // verus!

verus! {

/// Parses a course listing, reporting a crash (an input that the listing
/// does not accept) as such.
fn course_info_core(parsed: &Vec<RawWebRegMeeting>, subj: &str) -> (r: Parsed<Vec<CourseSection>>)
    ensures
        parsed_matches(r, spec_course_info(parsed@, subj@), |v: Vec<CourseSection>| sections_view(v@)),
{
    let mut sections: Vec<CourseSection> = Vec::new();
    let mut rest: Vec<usize> = Vec::new();
    let mut i: usize = 0;
    assert(parsed@.take(0) =~= Seq::<RawWebRegMeeting>::empty());
    assert(sections_view(sections@) =~= Seq::<CourseSectionView>::empty());
    assert(picked(parsed@, rest@) =~= Seq::<RawWebRegMeeting>::empty());
    while i < parsed.len()
        invariant
            i <= parsed@.len(),
            special_sections(parsed@.take(i as int), subj@) == Outcome::Done(sections_view(sections@)),
            picked(parsed@, rest@) == listing_rest(parsed@.take(i as int)),
            forall|j: int| 0 <= j < rest@.len() ==> #[trigger] rest@[j] < parsed@.len(),
            forall|j: int| 0 <= j < rest@.len() ==> listing_grouped(#[trigger] parsed@[rest@[j] as int]),
        decreases parsed@.len() - i,
    {
        let m = &parsed[i];
        let ghost pre = parsed@.take(i + 1);
        assert(pre.drop_last() =~= parsed@.take(i as int));
        assert(pre.last() == parsed@[i as int]);
        let code = str_chars(m.sect_code.as_str());
        let tcode = crate::text::trim_chars(code.as_slice());
        let skipped = display_is(m, 'C', 'A') || tcode.len() == 0;
        if !skipped {
            proof {
                if code@.len() == 0 {
                    lemma_trim_empty(code@);
                }
            }
            if crate::text::char_is_digit(code[0]) {
                match listing_meeting_of(m) {
                    Parsed::Value(mt) => {
                        let mut mts: Vec<Meeting> = Vec::new();
                        mts.push(mt);
                        assert(meetings_view(mts@) =~= seq![mt@]);
                        let s = section_of(
                            m,
                            subj,
                            trimmed_string(m.section_id.as_str()),
                            string_from_chars(tcode.as_slice()),
                            get_instructor_names(m.person_full_name.as_str()),
                            mts,
                        );
                        let ghost before = sections_view(sections@);
                        sections.push(s);
                        assert(sections_view(sections@) =~= before + seq![s@]);
                    },
                    Parsed::Error(e) => {
                        proof {
                            lemma_special_sections_absorb(parsed@, subj@, i + 1);
                        }
                        return Parsed::Error(e);
                    },
                    Parsed::Crash => {
                        proof {
                            lemma_special_sections_absorb(parsed@, subj@, i + 1);
                        }
                        return Parsed::Crash;
                    },
                }
            } else {
                assert(picked(parsed@, rest@.push(i)) =~= picked(parsed@, rest@).push(parsed@[i as int]));
                rest.push(i);
            }
        }
        i += 1;
    }
    assert(parsed@.take(parsed@.len() as int) =~= parsed@);
    let ghost v1 = sections_view(sections@);
    let ghost rest_s = listing_rest(parsed@);
    // The section family of each grouped meeting.
    let mut firsts: Vec<char> = Vec::new();
    let mut j: usize = 0;
    while j < rest.len()
        invariant
            j <= rest@.len(),
            rest_s == picked(parsed@, rest@),
            forall|q: int| 0 <= q < rest@.len() ==> #[trigger] rest@[q] < parsed@.len(),
            forall|q: int| 0 <= q < rest@.len() ==> listing_grouped(#[trigger] parsed@[rest@[q] as int]),
            firsts@ == rest_s.take(j as int).map_values(|m: RawWebRegMeeting| family(m)),
        decreases rest@.len() - j,
    {
        let m = &parsed[rest[j]];
        assert(listing_grouped(parsed@[rest@[j as int] as int]));
        let code = str_chars(m.sect_code.as_str());
        proof {
            if code@.len() == 0 {
                lemma_trim_empty(code@);
            }
        }
        assert(rest_s.take(j + 1).map_values(|m: RawWebRegMeeting| family(m)) =~= rest_s.take(
            j as int,
        ).map_values(|m: RawWebRegMeeting| family(m)).push(code@[0]));
        firsts.push(code[0]);
        j += 1;
    }
    assert(rest_s.take(rest_s.len() as int) =~= rest_s);
    let keys = sort_chars(&firsts);
    assert(keys@ == families(rest_s));
    let mut t: usize = 0;
    assert(keys@.take(0) =~= Seq::<char>::empty());
    assert(v1 + Seq::<CourseSectionView>::empty() =~= v1);
    while t < keys.len()
        invariant
            t <= keys@.len(),
            keys@ == families(rest_s),
            rest_s == picked(parsed@, rest@),
            special_sections(parsed@, subj@) == Outcome::Done(v1),
            rest_s == listing_rest(parsed@),
            forall|q: int| 0 <= q < rest@.len() ==> #[trigger] rest@[q] < parsed@.len(),
            forall|q: int| 0 <= q < rest@.len() ==> listing_grouped(#[trigger] parsed@[rest@[q] as int]),
            after(v1, families_sections(rest_s, keys@.take(t as int), subj@)) == Outcome::Done(
                sections_view(sections@),
            ),
        decreases keys@.len() - t,
    {
        let k = keys[t];
        assert(keys@.take(t + 1).drop_last() =~= keys@.take(t as int));
        assert(keys@.take(t + 1).last() == k);
        let (gidx, cidx) = family_indices(parsed, &rest, k);
        match family_sections_of(parsed, &gidx, &cidx, subj) {
            Parsed::Value(mut fs) => {
                let ghost before = sections_view(sections@);
                let ghost added = sections_view(fs@);
                let ghost w = families_sections(rest_s, keys@.take(t as int), subj@)->Done_0;
                sections.append(&mut fs);
                assert(sections_view(sections@) =~= before + added);
                assert(v1 + (w + added) =~= (v1 + w) + added);
            },
            Parsed::Error(e) => {
                proof {
                    lemma_families_sections_absorb(rest_s, keys@, subj@, t + 1);
                }
                return Parsed::Error(e);
            },
            Parsed::Crash => {
                proof {
                    lemma_families_sections_absorb(rest_s, keys@, subj@, t + 1);
                }
                return Parsed::Crash;
            },
        }
        t += 1;
    }
    assert(keys@.take(keys@.len() as int) =~= keys@);
    Parsed::Value(sections)
}

/// Processes the vector containing raw meeting information into parsed
/// course information.
///
/// # Parameters
/// - `parsed`: The vector of meetings.
/// - `subj_num`: The subject course number (e.g., `CSE 100`).
///
/// # Returns
/// Either the parsed course information or an error.
pub fn parse_course_info(parsed: Vec<RawWebRegMeeting>, subj_num: String) -> (r: crate::types::Result<Courses>)
    requires
        !(spec_course_info(parsed@, subj_num@) is Crashed),
    ensures
        result_matches(r, spec_course_info(parsed@, subj_num@), |v: Vec<CourseSection>| sections_view(v@)),
{
    match course_info_core(&parsed, subj_num.as_str()) {
        Parsed::Value(v) => Ok(v),
        Parsed::Error(e) => Err(e),
        Parsed::Crash => {
            proof {
                assert(false);
            }
            Ok(Vec::new())
        },
    }
}

/// Whether [`parse_course_info`] accepts the meetings: no meeting that it
/// reads before it stops has an undefined type or date.
pub fn course_info_accepted(parsed: &Vec<RawWebRegMeeting>, subj_num: &str) -> (r: bool)
    ensures
        r == !(spec_course_info(parsed@, subj_num@) is Crashed),
{
    match course_info_core(parsed, subj_num) {
        Parsed::Crash => false,
        _ => true,
    }
}

/// Parses a course listing, or gives `None` for one that
/// [`parse_course_info`] does not accept.
pub fn try_parse_course_info(parsed: Vec<RawWebRegMeeting>, subj_num: String) -> (r: Option<crate::types::Result<Courses>>)
    ensures
        r is None <==> spec_course_info(parsed@, subj_num@) is Crashed,
        r matches Some(res) ==> result_matches(
            res,
            spec_course_info(parsed@, subj_num@),
            |v: Vec<CourseSection>| sections_view(v@),
        ),
{
    if course_info_accepted(&parsed, subj_num.as_str()) {
        Some(parse_course_info(parsed, subj_num))
    } else {
        None
    }
}

/// What course data to parse.
pub enum CourseInfoType {
    /// All data: [`parse_course_info`].
    Full,
    /// The enrollment counts only: [`parse_enrollment_count`].
    Count,
}

/// Runs either the `parse_course_info` or `parse_enrollment_count`
/// function depending on what data is requested.
///
/// # Parameters
/// - `parsed`: The vector of meetings.
/// - `subj_num`: The subject course number (e.g., `CSE 100`).
/// - `data_type`: The data type (either "Full" for all data, or "Count"
///                for partial).
///
/// # Returns
/// Either the parsed course information or an error.
pub fn parse_course_info_or_enrollment_ct(
    parsed: Vec<RawWebRegMeeting>,
    subj_num: String,
    data_type: CourseInfoType,
) -> (r: crate::types::Result<Courses>)
    requires
        data_type is Full ==> !(spec_course_info(parsed@, subj_num@) is Crashed),
    ensures
        data_type is Full ==> result_matches(
            r,
            spec_course_info(parsed@, subj_num@),
            |v: Vec<CourseSection>| sections_view(v@),
        ),
        data_type is Count ==> (r matches Ok(secs) && sections_view(secs@) == spec_enrollment_count(
            parsed@,
            subj_num@,
        )),
{
    match data_type {
        CourseInfoType::Full => parse_course_info(parsed, subj_num),
        CourseInfoType::Count => parse_enrollment_count(parsed, subj_num),
    }
}

} // verus!

verus! {

// ---------------------------------------------------------------------------
// Schedules
// ---------------------------------------------------------------------------

/// A meeting of the schedule that is read: all but those whose enrolled count
/// and capacity are both zero.
pub open spec fn sched_kept(m: RawScheduledMeeting) -> bool {
    !(m.enrolled_count == Some(0i64) && m.section_capacity == Some(0i64))
}

/// A meeting of a special section: its section code starts with a digit.
pub open spec fn sched_special(m: RawScheduledMeeting) -> bool {
    m.sect_code@.len() > 0 && is_digit(m.sect_code@[0])
}

/// The schedule reading stops (it indexes the first byte of the section
/// code) at a kept meeting without a section code.
pub open spec fn sched_code_missing(ms: Seq<RawScheduledMeeting>) -> bool {
    exists|i: int| 0 <= i < ms.len() && sched_kept(#[trigger] ms[i]) && ms[i].sect_code@.len() == 0
}

/// The kept meetings of `ms`, in order: those of special sections, or the others.
pub open spec fn sched_filter(ms: Seq<RawScheduledMeeting>, special: bool) -> Seq<RawScheduledMeeting>
    decreases ms.len(),
{
    if ms.len() == 0 {
        Seq::empty()
    } else {
        let p = sched_filter(ms.drop_last(), special);
        let m = ms.last();
        if sched_kept(m) && sched_special(m) == special {
            p.push(m)
        } else {
            p
        }
    }
}

/// The key that groups the meetings of one course: its trimmed title.
pub open spec fn title_key(m: RawScheduledMeeting) -> Seq<char> {
    trim(m.course_title@)
}

/// The course titles of `list`, each once, in the order they first appear.
pub open spec fn titles(list: Seq<RawScheduledMeeting>) -> Seq<Seq<char>> {
    distinct(list.map_values(|m: RawScheduledMeeting| title_key(m)))
}

/// The meetings of `list` with the title `t`, in order.
pub open spec fn by_title(list: Seq<RawScheduledMeeting>, t: Seq<char>) -> Seq<RawScheduledMeeting>
    decreases list.len(),
{
    if list.len() == 0 {
        Seq::empty()
    } else {
        let p = by_title(list.drop_last(), t);
        if title_key(list.last()) == t {
            p.push(list.last())
        } else {
            p
        }
    }
}

/// `s` with every `TBA` taken out, left to right, as `str::replace("TBA", "")` gives it.
pub open spec fn remove_tba(s: Seq<char>) -> Seq<char>
    decreases s.len(),
{
    if s.len() == 0 {
        s
    } else if s.len() >= 3 && s[0] == 'T' && s[1] == 'B' && s[2] == 'A' {
        remove_tba(s.skip(3))
    } else {
        seq![s[0]] + remove_tba(s.skip(1))
    }
}

/// The three kinds of meetings of a section in the schedule.
pub enum MeetingKind {
    /// A main meeting (e.g. a lecture): code ending with `00`, no special meeting.
    Main,
    /// A one-time meeting (e.g. a final exam): code ending with `00`, with a special meeting.
    Exam,
    /// Any other meeting (e.g. a discussion): code not ending with `00`.
    Regular,
}

/// Whether the meeting `m` is of the kind `kind`.
pub open spec fn is_kind(m: RawScheduledMeeting, kind: MeetingKind) -> bool {
    match kind {
        MeetingKind::Main => ends_00(m.sect_code@) && trim(remove_tba(m.special_meeting@)).len() == 0,
        MeetingKind::Exam => ends_00(m.sect_code@) && trim(remove_tba(m.special_meeting@)).len() > 0,
        MeetingKind::Regular => !ends_00(m.sect_code@),
    }
}

/// The meetings of `g` of the kind `kind`, in order.
pub open spec fn of_kind(g: Seq<RawScheduledMeeting>, kind: MeetingKind) -> Seq<RawScheduledMeeting>
    decreases g.len(),
{
    if g.len() == 0 {
        Seq::empty()
    } else if is_kind(g.last(), kind) {
        of_kind(g.drop_last(), kind).push(g.last())
    } else {
        of_kind(g.drop_last(), kind)
    }
}

/// The days of a meeting of the kind `kind`: a main meeting's trimmed day code
/// (no day when blank), a one-time meeting's start date, a regular meeting's day code.
pub open spec fn sched_days(m: RawScheduledMeeting, kind: MeetingKind) -> MeetingDayView {
    match kind {
        MeetingKind::Main => if trim(m.day_code@).len() == 0 {
            MeetingDayView::NoMeeting
        } else {
            MeetingDayView::Repeated(spec_day_codes(trim(m.day_code@)))
        },
        MeetingKind::Exam => MeetingDayView::OneTime(m.start_date@),
        MeetingKind::Regular => MeetingDayView::Repeated(spec_day_codes(m.day_code@)),
    }
}

/// All four times of a scheduled meeting are non-negative.
pub open spec fn sched_times_ok(m: RawScheduledMeeting) -> bool {
    m.start_time_hr >= 0 && m.start_time_min >= 0 && m.end_time_hr >= 0 && m.end_time_min >= 0
}

/// The cleaned form of a scheduled meeting on the days `days`.
pub open spec fn sched_meeting(m: RawScheduledMeeting, days: MeetingDayView) -> MeetingView {
    MeetingView {
        meeting_type: m.meeting_type@,
        meeting_days: days,
        start_hr: m.start_time_hr as u32,
        start_min: m.start_time_min as u32,
        end_hr: m.end_time_hr as u32,
        end_min: m.end_time_min as u32,
        building: trim(m.bldg_code@),
        room: trim(m.room_code@),
        instructors: spec_instructor_names(m.person_full_name@),
    }
}

/// The meetings of `list`, all of the kind `kind`, parsed in order: the parse
/// fails on a negative time.
pub open spec fn sched_meetings(list: Seq<RawScheduledMeeting>, kind: MeetingKind) -> Outcome<Seq<MeetingView>>
    decreases list.len(),
{
    if list.len() == 0 {
        Outcome::Done(Seq::empty())
    } else {
        match sched_meetings(list.drop_last(), kind) {
            Outcome::Done(v) => if sched_times_ok(list.last()) {
                Outcome::Done(v.push(sched_meeting(list.last(), sched_days(list.last(), kind))))
            } else {
                Outcome::Failed(ParseFailure::BadTime)
            },
            other => other,
        }
    }
}

/// The meetings parsed so far, followed by those of `list`.
pub open spec fn then_meetings(o: Outcome<Seq<MeetingView>>, list: Seq<RawScheduledMeeting>, kind: MeetingKind) -> Outcome<Seq<MeetingView>> {
    match o {
        Outcome::Done(v) => after(v, sched_meetings(list, kind)),
        other => other,
    }
}

/// The first element of `s` that `p` holds of.
pub open spec fn first_where<A>(s: Seq<A>, p: spec_fn(A) -> bool) -> Option<A>
    decreases s.len(),
{
    if s.len() == 0 {
        None
    } else {
        match first_where(s.drop_last(), p) {
            Some(x) => Some(x),
            None => if p(s.last()) {
                Some(s.last())
            } else {
                None
            },
        }
    }
}

/// A meeting with both an enrolled count and a capacity: the one that
/// carries a section's enrollment figures.
pub open spec fn has_counts(m: RawScheduledMeeting) -> bool {
    m.enrolled_count is Some && m.section_capacity is Some
}

/// [`has_counts`] as a predicate.
pub open spec fn counts_pred() -> spec_fn(RawScheduledMeeting) -> bool {
    |m: RawScheduledMeeting| has_counts(m)
}

/// Regular meetings, as a predicate.
pub open spec fn regular_pred() -> spec_fn(RawScheduledMeeting) -> bool {
    |m: RawScheduledMeeting| is_kind(m, MeetingKind::Regular)
}

/// The value of an optional count, or `d`.
pub open spec fn count_or(c: Option<i64>, d: i64) -> i64 {
    match c {
        Some(v) => v,
        None => d,
    }
}

/// The enrollment status of a scheduled meeting: `EN`, `WT` (with the
/// waitlist position, `-1` when it does not read as an `i64`), `PL`, or unknown.
pub open spec fn sched_status(m: RawScheduledMeeting) -> EnrollmentStatus {
    if m.enroll_status@ == seq!['E', 'N'] {
        EnrollmentStatus::Enrolled
    } else if m.enroll_status@ == seq!['W', 'T'] {
        EnrollmentStatus::Waitlist {
            waitlist_pos: match spec_parse_i64(m.waitlist_pos@) {
                Some(v) => v as i64,
                None => -1i64,
            },
        }
    } else if m.enroll_status@ == seq!['P', 'L'] {
        EnrollmentStatus::Planned
    } else {
        EnrollmentStatus::Unknown
    }
}

/// The instructors of each meeting of `list`, one after the other.
pub open spec fn sched_names(list: Seq<RawScheduledMeeting>) -> Seq<Seq<char>>
    decreases list.len(),
{
    if list.len() == 0 {
        Seq::empty()
    } else {
        sched_names(list.drop_last()) + spec_instructor_names(list.last().person_full_name@)
    }
}

/// `capacity - enrolled` fits in an `i64` (else the subtraction overflows).
pub open spec fn seats_fit(capacity: i64, enrolled: i64) -> bool {
    i64::MIN <= capacity - enrolled <= i64::MAX
}

/// A section of the schedule whose figures come from the meeting `d`.
pub open spec fn sched_section(
    d: RawScheduledMeeting,
    code: Seq<char>,
    grade: Seq<char>,
    instructors: Seq<Seq<char>>,
    capacity: i64,
    enrolled: i64,
    meetings: Seq<MeetingView>,
) -> ScheduledSectionView {
    ScheduledSectionView {
        section_id: int_decimal(d.section_id as int),
        subject_code: trim(d.subj_code@),
        course_code: trim(d.course_code@),
        course_title: trim(d.course_title@),
        section_code: code,
        section_capacity: capacity,
        enrolled_count: enrolled,
        available_seats: if capacity - enrolled > 0 {
            (capacity - enrolled) as i64
        } else {
            0
        },
        grade_option: grade,
        all_instructors: instructors,
        units: d.sect_credit_hrs,
        enrolled_status: sched_status(d),
        waitlist_ct: count_or(d.count_on_waitlist, 0),
        meetings: meetings,
    }
}

/// The section of the schedule that the meetings `g` of one course make.
/// The reading stops when there is no main meeting or the main meetings differ
/// in type; it fails on a negative time, and when no meeting carries the
/// enrollment figures.
pub open spec fn base_section(g: Seq<RawScheduledMeeting>) -> Outcome<Seq<ScheduledSectionView>> {
    let mains = of_kind(g, MeetingKind::Main);
    if mains.len() == 0 || !(forall|i: int| 0 <= i < mains.len() ==> #[trigger] mains[i].meeting_type@ == mains[0].meeting_type@) {
        Outcome::Crashed
    } else {
        let mts = then_meetings(
            then_meetings(sched_meetings(mains, MeetingKind::Main), of_kind(g, MeetingKind::Exam), MeetingKind::Exam),
            of_kind(g, MeetingKind::Regular),
            MeetingKind::Regular,
        );
        match mts {
            Outcome::Done(mv) => match first_where(g, counts_pred()) {
                None => Outcome::Failed(ParseFailure::Deformed),
                Some(d) => {
                    let cap = count_or(d.section_capacity, -1i64);
                    let enr = count_or(d.enrolled_count, -1i64);
                    if !seats_fit(cap, enr) {
                        Outcome::Crashed
                    } else {
                        let code = match first_where(g, regular_pred()) {
                            Some(c) => c.sect_code@,
                            None => d.sect_code@,
                        };
                        Outcome::Done(seq![sched_section(d, code, d.grade_option@, sorted_unique(sched_names(g)), cap, enr, mv)])
                    }
                },
            },
            Outcome::Failed(f) => Outcome::Failed(f),
            Outcome::Crashed => Outcome::Crashed,
        }
    }
}

/// The trimmed day codes of the meetings of `g`, joined.
pub open spec fn joined_day_codes(g: Seq<RawScheduledMeeting>) -> Seq<char>
    decreases g.len(),
{
    if g.len() == 0 {
        Seq::empty()
    } else {
        joined_day_codes(g.drop_last()) + trim(g.last().day_code@)
    }
}

/// The section of the schedule that the meetings `g` of a special section
/// make: its figures and its one meeting come from the first meeting, its days
/// from the day codes of all of them.
pub open spec fn special_sched_section(g: Seq<RawScheduledMeeting>) -> Outcome<Seq<ScheduledSectionView>> {
    let d = g[0];
    let cap = count_or(d.section_capacity, -1i64);
    let enr = count_or(d.enrolled_count, -1i64);
    let days = joined_day_codes(g);
    if !seats_fit(cap, enr) {
        Outcome::Crashed
    } else if !sched_times_ok(d) {
        Outcome::Failed(ParseFailure::BadTime)
    } else {
        let meeting = sched_meeting(
            d,
            if days.len() == 0 {
                MeetingDayView::NoMeeting
            } else {
                MeetingDayView::Repeated(spec_day_codes(days))
            },
        );
        Outcome::Done(
            seq![
                sched_section(
                    d,
                    d.sect_code@,
                    trim(d.grade_option@),
                    sorted_unique(sched_names(g)),
                    cap,
                    enr,
                    seq![meeting],
                ),
            ],
        )
    }
}

/// The sections of the courses `ts` of `list`, course after course.
pub open spec fn groups_sections(list: Seq<RawScheduledMeeting>, ts: Seq<Seq<char>>, special: bool) -> Outcome<Seq<ScheduledSectionView>>
    decreases ts.len(),
{
    if ts.len() == 0 {
        Outcome::Done(Seq::empty())
    } else {
        match groups_sections(list, ts.drop_last(), special) {
            Outcome::Done(v) => after(
                v,
                if special {
                    special_sched_section(by_title(list, ts.last()))
                } else {
                    base_section(by_title(list, ts.last()))
                },
            ),
            other => other,
        }
    }
}

/// The schedule of `ms`: the sections of the courses without special
/// sections, then those of the special sections, each in the order in which
/// its course first appears.
pub open spec fn spec_schedule(ms: Seq<RawScheduledMeeting>) -> Outcome<Seq<ScheduledSectionView>> {
    if sched_code_missing(ms) {
        Outcome::Crashed
    } else {
        let base = sched_filter(ms, false);
        let special = sched_filter(ms, true);
        match groups_sections(base, titles(base), false) {
            Outcome::Done(v) => after(v, groups_sections(special, titles(special), true)),
            other => other,
        }
    }
}

} // verus!

verus! {

pub proof fn lemma_first_where_found<A>(s: Seq<A>, p: spec_fn(A) -> bool, k: int)
    requires
        0 <= k <= s.len(),
        first_where(s.take(k), p) is Some,
    ensures
        first_where(s, p) == first_where(s.take(k), p),
    decreases s.len() - k,
{
    if k < s.len() {
        assert(s.drop_last().take(k) =~= s.take(k));
        lemma_first_where_found(s.drop_last(), p, k);
    } else {
        assert(s.take(k) =~= s);
    }
}

proof fn lemma_sched_meetings_absorb(list: Seq<RawScheduledMeeting>, kind: MeetingKind, k: int)
    requires
        0 <= k <= list.len(),
        !(sched_meetings(list.take(k), kind) is Done),
    ensures
        sched_meetings(list, kind) == sched_meetings(list.take(k), kind),
    decreases list.len() - k,
{
    if k < list.len() {
        assert(list.drop_last().take(k) =~= list.take(k));
        lemma_sched_meetings_absorb(list.drop_last(), kind, k);
    } else {
        assert(list.take(k) =~= list);
    }
}

proof fn lemma_groups_sections_absorb(list: Seq<RawScheduledMeeting>, ts: Seq<Seq<char>>, special: bool, k: int)
    requires
        0 <= k <= ts.len(),
        !(groups_sections(list, ts.take(k), special) is Done),
    ensures
        groups_sections(list, ts, special) == groups_sections(list, ts.take(k), special),
    decreases ts.len() - k,
{
    if k < ts.len() {
        assert(ts.drop_last().take(k) =~= ts.take(k));
        lemma_groups_sections_absorb(list, ts.drop_last(), special, k);
    } else {
        assert(ts.take(k) =~= ts);
    }
}

proof fn lemma_distinct_contains<A>(s: Seq<A>, x: A)
    requires
        distinct(s).contains(x),
    ensures
        s.contains(x),
    decreases s.len(),
{
    if s.len() > 0 {
        let p = distinct(s.drop_last());
        if p.contains(x) {
            lemma_distinct_contains(s.drop_last(), x);
            let j = choose|j: int| 0 <= j < s.drop_last().len() && s.drop_last()[j] == x;
            assert(s[j] == x);
        } else {
            assert(x == s.last());
            assert(s[s.len() - 1] == x);
        }
    }
}

proof fn lemma_by_title_nonempty(list: Seq<RawScheduledMeeting>, t: Seq<char>)
    requires
        list.map_values(|m: RawScheduledMeeting| title_key(m)).contains(t),
    ensures
        by_title(list, t).len() > 0,
    decreases list.len(),
{
    let keys = list.map_values(|m: RawScheduledMeeting| title_key(m));
    let j = choose|j: int| 0 <= j < keys.len() && keys[j] == t;
    if title_key(list.last()) != t {
        assert(j < list.len() - 1);
        assert(list.drop_last().map_values(|m: RawScheduledMeeting| title_key(m))[j] == t);
        lemma_by_title_nonempty(list.drop_last(), t);
    }
}

/// `s` with every `TBA` taken out, left to right.
fn remove_tba_chars(s: &[char]) -> (r: Vec<char>)
    ensures
        r@ == remove_tba(s@),
{
    let mut out: Vec<char> = Vec::new();
    let mut i: usize = 0;
    assert(s@.skip(0) =~= s@);
    while i < s.len()
        invariant
            i <= s@.len(),
            out@ + remove_tba(s@.skip(i as int)) == remove_tba(s@),
        decreases s@.len() - i,
    {
        let ghost rest = s@.skip(i as int);
        if s.len() - i >= 3 && s[i] == 'T' && s[i + 1] == 'B' && s[i + 2] == 'A' {
            assert(rest.skip(3) =~= s@.skip(i + 3));
            i += 3;
        } else {
            assert(rest.skip(1) =~= s@.skip(i + 1));
            assert(out@.push(s@[i as int]) + remove_tba(s@.skip(i + 1)) =~= out@ + (seq![rest[0]] + remove_tba(rest.skip(1))));
            out.push(s[i]);
            i += 1;
        }
    }
    assert(s@.skip(i as int) =~= Seq::<char>::empty());
    assert(out@ + Seq::<char>::empty() =~= out@);
    out
}

/// Whether the meeting `m` is of the kind `kind`.
fn is_kind_of(m: &RawScheduledMeeting, kind: &MeetingKind) -> (r: bool)
    ensures
        r == is_kind(*m, *kind),
{
    let code = str_chars(m.sect_code.as_str());
    let e00 = chars_end_00(&code);
    match kind {
        MeetingKind::Regular => !e00,
        _ => {
            if !e00 {
                return false;
            }
            let sp = str_chars(m.special_meeting.as_str());
            let kept = remove_tba_chars(sp.as_slice());
            let t = crate::text::trim_chars(kept.as_slice());
            match kind {
                MeetingKind::Main => t.len() == 0,
                _ => t.len() > 0,
            }
        },
    }
}

/// The days of the meeting `m` of the kind `kind`.
fn sched_days_of(m: &RawScheduledMeeting, kind: &MeetingKind) -> (r: MeetingDay)
    ensures
        r@ == sched_days(*m, *kind),
{
    match kind {
        MeetingKind::Main => {
            let d = trimmed_string(m.day_code.as_str());
            if d.as_str().is_empty() {
                MeetingDay::NoMeeting
            } else {
                MeetingDay::Repeated(parse_day_code(d.as_str()))
            }
        },
        MeetingKind::Exam => MeetingDay::OneTime(copy_string(m.start_date.as_str())),
        MeetingKind::Regular => MeetingDay::Repeated(parse_day_code(m.day_code.as_str())),
    }
}

/// Parses one scheduled meeting on the days `days`.
fn sched_meeting_of(m: &RawScheduledMeeting, days: MeetingDay) -> (r: Parsed<Meeting>)
    ensures
        !sched_times_ok(*m) ==> (r matches Parsed::Error(e) && e is BadTimeError),
        sched_times_ok(*m) ==> (r matches Parsed::Value(mt) && mt@ == sched_meeting(*m, days@)),
{
    if m.start_time_hr < 0 || m.start_time_min < 0 || m.end_time_hr < 0 || m.end_time_min < 0 {
        return Parsed::Error(WrapperError::BadTimeError);
    }
    Parsed::Value(Meeting {
        meeting_type: copy_string(m.meeting_type.as_str()),
        meeting_days: days,
        building: trimmed_string(m.bldg_code.as_str()),
        room: trimmed_string(m.room_code.as_str()),
        start_hr: time_of(m.start_time_hr),
        start_min: time_of(m.start_time_min),
        end_hr: time_of(m.end_time_hr),
        end_min: time_of(m.end_time_min),
        instructors: get_instructor_names(m.person_full_name.as_str()),
    })
}

/// Parses, in order, the meetings that `idxs` picks from `ms`, all of the kind `kind`.
fn sched_meetings_of(ms: &Vec<RawScheduledMeeting>, idxs: &Vec<usize>, kind: &MeetingKind) -> (r: Parsed<Vec<Meeting>>)
    requires
        forall|j: int| 0 <= j < idxs@.len() ==> #[trigger] idxs@[j] < ms@.len(),
    ensures
        parsed_matches(r, sched_meetings(picked(ms@, idxs@), *kind), |v: Vec<Meeting>| meetings_view(v@)),
{
    let ghost list = picked(ms@, idxs@);
    let mut out: Vec<Meeting> = Vec::new();
    let mut j: usize = 0;
    assert(list.take(0) =~= Seq::<RawScheduledMeeting>::empty());
    assert(meetings_view(out@) =~= Seq::<MeetingView>::empty());
    while j < idxs.len()
        invariant
            j <= idxs@.len(),
            list == picked(ms@, idxs@),
            forall|k: int| 0 <= k < idxs@.len() ==> #[trigger] idxs@[k] < ms@.len(),
            sched_meetings(list.take(j as int), *kind) == Outcome::Done(meetings_view(out@)),
        decreases idxs@.len() - j,
    {
        let m = &ms[idxs[j]];
        assert(list.take(j + 1).drop_last() =~= list.take(j as int));
        assert(list.take(j + 1).last() == ms@[idxs@[j as int] as int]);
        let days = sched_days_of(m, kind);
        match sched_meeting_of(m, days) {
            Parsed::Value(mt) => {
                let ghost before = meetings_view(out@);
                out.push(mt);
                assert(meetings_view(out@) =~= before.push(mt@));
            },
            Parsed::Error(e) => {
                proof {
                    lemma_sched_meetings_absorb(list, *kind, j + 1);
                }
                return Parsed::Error(e);
            },
            Parsed::Crash => {
                return Parsed::Crash;
            },
        }
        j += 1;
    }
    assert(list.take(list.len() as int) =~= list);
    Parsed::Value(out)
}

/// The meetings of the kind `kind` among those that `g` picks from `ms`.
fn kind_indices(ms: &Vec<RawScheduledMeeting>, g: &Vec<usize>, kind: &MeetingKind) -> (r: Vec<usize>)
    requires
        forall|j: int| 0 <= j < g@.len() ==> #[trigger] g@[j] < ms@.len(),
    ensures
        picked(ms@, r@) == of_kind(picked(ms@, g@), *kind),
        forall|j: int| 0 <= j < r@.len() ==> #[trigger] r@[j] < ms@.len(),
{
    let ghost list = picked(ms@, g@);
    let mut r: Vec<usize> = Vec::new();
    let mut j: usize = 0;
    assert(list.take(0) =~= Seq::<RawScheduledMeeting>::empty());
    assert(picked(ms@, r@) =~= Seq::<RawScheduledMeeting>::empty());
    while j < g.len()
        invariant
            j <= g@.len(),
            list == picked(ms@, g@),
            forall|k: int| 0 <= k < g@.len() ==> #[trigger] g@[k] < ms@.len(),
            picked(ms@, r@) == of_kind(list.take(j as int), *kind),
            forall|k: int| 0 <= k < r@.len() ==> #[trigger] r@[k] < ms@.len(),
        decreases g@.len() - j,
    {
        let x = g[j];
        assert(list.take(j + 1).drop_last() =~= list.take(j as int));
        assert(list.take(j + 1).last() == ms@[x as int]);
        if is_kind_of(&ms[x], kind) {
            assert(picked(ms@, r@.push(x)) =~= picked(ms@, r@).push(ms@[x as int]));
            r.push(x);
        }
        j += 1;
    }
    assert(list.take(list.len() as int) =~= list);
    r
}

} // verus!

verus! {

/// Where in `g` the first meeting with the enrollment figures stands.
fn first_with_counts(ms: &Vec<RawScheduledMeeting>, g: &Vec<usize>) -> (r: Option<usize>)
    requires
        forall|j: int| 0 <= j < g@.len() ==> #[trigger] g@[j] < ms@.len(),
    ensures
        r matches Some(p) ==> p < g@.len() && first_where(picked(ms@, g@), counts_pred()) == Some(
            ms@[g@[p as int] as int],
        ),
        r is None ==> first_where(picked(ms@, g@), counts_pred()) is None,
{
    let ghost gs = picked(ms@, g@);
    let mut j: usize = 0;
    assert(gs.take(0) =~= Seq::<RawScheduledMeeting>::empty());
    while j < g.len()
        invariant
            j <= g@.len(),
            gs == picked(ms@, g@),
            forall|k: int| 0 <= k < g@.len() ==> #[trigger] g@[k] < ms@.len(),
            first_where(gs.take(j as int), counts_pred()) is None,
        decreases g@.len() - j,
    {
        let m = &ms[g[j]];
        assert(gs.take(j + 1).drop_last() =~= gs.take(j as int));
        assert(gs.take(j + 1).last() == ms@[g@[j as int] as int]);
        if m.enrolled_count.is_some() && m.section_capacity.is_some() {
            proof {
                lemma_first_where_found(gs, counts_pred(), j + 1);
            }
            return Some(j);
        }
        j += 1;
    }
    assert(gs.take(gs.len() as int) =~= gs);
    None
}

/// Where in `g` the first regular meeting stands.
fn first_regular(ms: &Vec<RawScheduledMeeting>, g: &Vec<usize>) -> (r: Option<usize>)
    requires
        forall|j: int| 0 <= j < g@.len() ==> #[trigger] g@[j] < ms@.len(),
    ensures
        r matches Some(p) ==> p < g@.len() && first_where(picked(ms@, g@), regular_pred()) == Some(
            ms@[g@[p as int] as int],
        ),
        r is None ==> first_where(picked(ms@, g@), regular_pred()) is None,
{
    let ghost gs = picked(ms@, g@);
    let mut j: usize = 0;
    assert(gs.take(0) =~= Seq::<RawScheduledMeeting>::empty());
    while j < g.len()
        invariant
            j <= g@.len(),
            gs == picked(ms@, g@),
            forall|k: int| 0 <= k < g@.len() ==> #[trigger] g@[k] < ms@.len(),
            first_where(gs.take(j as int), regular_pred()) is None,
        decreases g@.len() - j,
    {
        let m = &ms[g[j]];
        assert(gs.take(j + 1).drop_last() =~= gs.take(j as int));
        assert(gs.take(j + 1).last() == ms@[g@[j as int] as int]);
        if is_kind_of(m, &MeetingKind::Regular) {
            proof {
                lemma_first_where_found(gs, regular_pred(), j + 1);
            }
            return Some(j);
        }
        j += 1;
    }
    assert(gs.take(gs.len() as int) =~= gs);
    None
}

/// The instructors of each meeting that `g` picks from `ms`, one after the other.
fn sched_names_of(ms: &Vec<RawScheduledMeeting>, g: &Vec<usize>) -> (r: Vec<String>)
    requires
        forall|j: int| 0 <= j < g@.len() ==> #[trigger] g@[j] < ms@.len(),
    ensures
        strs_view(r@) == sched_names(picked(ms@, g@)),
{
    let ghost gs = picked(ms@, g@);
    let mut names: Vec<String> = Vec::new();
    let mut j: usize = 0;
    assert(gs.take(0) =~= Seq::<RawScheduledMeeting>::empty());
    assert(strs_view(names@) =~= Seq::<Seq<char>>::empty());
    while j < g.len()
        invariant
            j <= g@.len(),
            gs == picked(ms@, g@),
            forall|k: int| 0 <= k < g@.len() ==> #[trigger] g@[k] < ms@.len(),
            strs_view(names@) == sched_names(gs.take(j as int)),
        decreases g@.len() - j,
    {
        let m = &ms[g[j]];
        let more = get_instructor_names(m.person_full_name.as_str());
        assert(gs.take(j + 1).drop_last() =~= gs.take(j as int));
        assert(gs.take(j + 1).last() == ms@[g@[j as int] as int]);
        append_strs(&mut names, &more);
        j += 1;
    }
    assert(gs.take(gs.len() as int) =~= gs);
    names
}

/// The enrollment status of a scheduled meeting.
fn sched_status_of(m: &RawScheduledMeeting) -> (r: EnrollmentStatus)
    ensures
        r == sched_status(*m),
{
    proof {
        reveal_strlit("EN");
        reveal_strlit("WT");
        reveal_strlit("PL");
        assert("EN"@ =~= seq!['E', 'N']);
        assert("WT"@ =~= seq!['W', 'T']);
        assert("PL"@ =~= seq!['P', 'L']);
    }
    let st = str_chars(m.enroll_status.as_str());
    if chars_eq_str(st.as_slice(), "EN") {
        EnrollmentStatus::Enrolled
    } else if chars_eq_str(st.as_slice(), "WT") {
        let w = str_chars(m.waitlist_pos.as_str());
        let pos: i64 = match parse_i64_chars(w.as_slice()) {
            Some(v) => v,
            None => -1,
        };
        EnrollmentStatus::Waitlist { waitlist_pos: pos }
    } else if chars_eq_str(st.as_slice(), "PL") {
        EnrollmentStatus::Planned
    } else {
        EnrollmentStatus::Unknown
    }
}

/// A section of the schedule from the meeting `d` and the given parts.
fn sched_section_of(
    d: &RawScheduledMeeting,
    code: String,
    grade: String,
    instructors: Vec<String>,
    capacity: i64,
    enrolled: i64,
    meetings: Vec<Meeting>,
) -> (r: ScheduledSection)
    requires
        seats_fit(capacity, enrolled),
    ensures
        r@ == sched_section(
            *d,
            code@,
            grade@,
            strs_view(instructors@),
            capacity,
            enrolled,
            meetings_view(meetings@),
        ),
{
    let diff = capacity - enrolled;
    ScheduledSection {
        section_id: i64_to_string(d.section_id),
        subject_code: trimmed_string(d.subj_code.as_str()),
        course_code: trimmed_string(d.course_code.as_str()),
        course_title: trimmed_string(d.course_title.as_str()),
        section_code: code,
        section_capacity: capacity,
        enrolled_count: enrolled,
        available_seats: if diff > 0 {
            diff
        } else {
            0
        },
        grade_option: grade,
        all_instructors: instructors,
        units: d.sect_credit_hrs,
        enrolled_status: sched_status_of(d),
        waitlist_ct: match d.count_on_waitlist {
            Some(v) => v,
            None => 0,
        },
        meetings: meetings,
    }
}

/// The value of an optional count, or `-1`.
fn count_or_missing(c: Option<i64>) -> (r: i64)
    ensures
        r == count_or(c, -1i64),
{
    match c {
        Some(v) => v,
        None => -1,
    }
}

/// Parses the section of the schedule that the meetings `g` of one course make.
fn base_section_of(ms: &Vec<RawScheduledMeeting>, g: &Vec<usize>) -> (r: Parsed<ScheduledSection>)
    requires
        forall|j: int| 0 <= j < g@.len() ==> #[trigger] g@[j] < ms@.len(),
    ensures
        parsed_matches(r, base_section(picked(ms@, g@)), |s: ScheduledSection| seq![s@]),
{
    let ghost gs = picked(ms@, g@);
    let mains = kind_indices(ms, g, &MeetingKind::Main);
    let ghost mv = picked(ms@, mains@);
    if mains.len() == 0 {
        return Parsed::Crash;
    }
    let t0 = ms[mains[0]].meeting_type.as_str();
    let mut q: usize = 0;
    while q < mains.len()
        invariant
            q <= mains@.len(),
            mains@.len() > 0,
            mv == picked(ms@, mains@),
            gs == picked(ms@, g@),
            mv == of_kind(gs, MeetingKind::Main),
            t0@ == mv[0].meeting_type@,
            forall|k: int| 0 <= k < mains@.len() ==> #[trigger] mains@[k] < ms@.len(),
            forall|p: int| 0 <= p < q ==> #[trigger] mv[p].meeting_type@ == mv[0].meeting_type@,
        decreases mains@.len() - q,
    {
        if !crate::text::str_eq(ms[mains[q]].meeting_type.as_str(), t0) {
            assert(mv[q as int].meeting_type@ != mv[0].meeting_type@);
            assert(!(forall|i: int| 0 <= i < mv.len() ==> #[trigger] mv[i].meeting_type@ == mv[0].meeting_type@));
            assert(mv == of_kind(gs, MeetingKind::Main));
            return Parsed::Crash;
        }
        q += 1;
    }
    let exams = kind_indices(ms, g, &MeetingKind::Exam);
    let regs = kind_indices(ms, g, &MeetingKind::Regular);
    let mut all = match sched_meetings_of(ms, &mains, &MeetingKind::Main) {
        Parsed::Value(v) => v,
        Parsed::Error(e) => {
            return Parsed::Error(e);
        },
        Parsed::Crash => {
            return Parsed::Crash;
        },
    };
    let ghost a = meetings_view(all@);
    match sched_meetings_of(ms, &exams, &MeetingKind::Exam) {
        Parsed::Value(mut v) => {
            let ghost b = meetings_view(v@);
            all.append(&mut v);
            assert(meetings_view(all@) =~= a + b);
        },
        Parsed::Error(e) => {
            return Parsed::Error(e);
        },
        Parsed::Crash => {
            return Parsed::Crash;
        },
    }
    let ghost ab = meetings_view(all@);
    match sched_meetings_of(ms, &regs, &MeetingKind::Regular) {
        Parsed::Value(mut v) => {
            let ghost c = meetings_view(v@);
            all.append(&mut v);
            assert(meetings_view(all@) =~= ab + c);
        },
        Parsed::Error(e) => {
            return Parsed::Error(e);
        },
        Parsed::Crash => {
            return Parsed::Crash;
        },
    }
    let p = match first_with_counts(ms, g) {
        Some(p) => p,
        None => {
            proof {
                reveal_strlit("schedule is deformed");
                assert("schedule is deformed"@ =~= seq![
                    's', 'c', 'h', 'e', 'd', 'u', 'l', 'e', ' ', 'i', 's', ' ', 'd', 'e', 'f', 'o', 'r', 'm', 'e', 'd'
                ]);
            }
            return Parsed::Error(WrapperError::WrapperParsingError(copy_string("schedule is deformed")));
        },
    };
    let d = &ms[g[p]];
    let cap = count_or_missing(d.section_capacity);
    let enr = count_or_missing(d.enrolled_count);
    if cap.checked_sub(enr).is_none() {
        return Parsed::Crash;
    }
    let code = match first_regular(ms, g) {
        Some(c) => copy_string(ms[g[c]].sect_code.as_str()),
        None => copy_string(d.sect_code.as_str()),
    };
    let names = sched_names_of(ms, g);
    let instructors = get_all_instructors(names);
    let s = sched_section_of(d, code, copy_string(d.grade_option.as_str()), instructors, cap, enr, all);
    Parsed::Value(s)
}

/// Parses the section of the schedule that the meetings `g` of a special section make.
fn special_section_of(ms: &Vec<RawScheduledMeeting>, g: &Vec<usize>) -> (r: Parsed<ScheduledSection>)
    requires
        g@.len() > 0,
        forall|j: int| 0 <= j < g@.len() ==> #[trigger] g@[j] < ms@.len(),
    ensures
        parsed_matches(r, special_sched_section(picked(ms@, g@)), |s: ScheduledSection| seq![s@]),
{
    let ghost gs = picked(ms@, g@);
    let d = &ms[g[0]];
    assert(gs[0] == ms@[g@[0] as int]);
    let cap = count_or_missing(d.section_capacity);
    let enr = count_or_missing(d.enrolled_count);
    if cap.checked_sub(enr).is_none() {
        return Parsed::Crash;
    }
    let mut joined: Vec<char> = Vec::new();
    let mut j: usize = 0;
    assert(gs.take(0) =~= Seq::<RawScheduledMeeting>::empty());
    while j < g.len()
        invariant
            j <= g@.len(),
            gs == picked(ms@, g@),
            forall|k: int| 0 <= k < g@.len() ==> #[trigger] g@[k] < ms@.len(),
            joined@ == joined_day_codes(gs.take(j as int)),
        decreases g@.len() - j,
    {
        let m = &ms[g[j]];
        assert(gs.take(j + 1).drop_last() =~= gs.take(j as int));
        assert(gs.take(j + 1).last() == ms@[g@[j as int] as int]);
        let t = trimmed(m.day_code.as_str());
        extend_chars(&mut joined, t.as_slice());
        j += 1;
    }
    assert(gs.take(gs.len() as int) =~= gs);
    let days = if joined.len() == 0 {
        MeetingDay::NoMeeting
    } else {
        let js = string_from_chars(joined.as_slice());
        MeetingDay::Repeated(parse_day_code(js.as_str()))
    };
    let mt = match sched_meeting_of(d, days) {
        Parsed::Value(mt) => mt,
        Parsed::Error(e) => {
            return Parsed::Error(e);
        },
        Parsed::Crash => {
            return Parsed::Crash;
        },
    };
    let mut mts: Vec<Meeting> = Vec::new();
    mts.push(mt);
    assert(meetings_view(mts@) =~= seq![mt@]);
    let names = sched_names_of(ms, g);
    let instructors = get_all_instructors(names);
    let s = sched_section_of(
        d,
        copy_string(d.sect_code.as_str()),
        trimmed_string(d.grade_option.as_str()),
        instructors,
        cap,
        enr,
        mts,
    );
    Parsed::Value(s)
}

} // verus!

verus! {

/// The meetings that `idxs` picks from `ms`, grouped by course title: one
/// group per title, in the order in which the titles first appear.
fn title_groups(ms: &Vec<RawScheduledMeeting>, idxs: &Vec<usize>) -> (r: Vec<Vec<usize>>)
    requires
        forall|j: int| 0 <= j < idxs@.len() ==> #[trigger] idxs@[j] < ms@.len(),
    ensures
        r@.len() == titles(picked(ms@, idxs@)).len(),
        forall|j: int|
            0 <= j < r@.len() ==> picked(ms@, (#[trigger] r@[j])@) == by_title(
                picked(ms@, idxs@),
                titles(picked(ms@, idxs@))[j],
            ),
        forall|j: int, q: int| 0 <= j < r@.len() && 0 <= q < r@[j]@.len() ==> #[trigger] r@[j]@[q] < ms@.len(),
{
    let ghost list = picked(ms@, idxs@);
    let ghost keys = list.map_values(|m: RawScheduledMeeting| title_key(m));
    let mut ts: Vec<Vec<char>> = Vec::new();
    let mut j: usize = 0;
    assert(keys.take(0) =~= Seq::<Seq<char>>::empty());
    assert(chars_view(ts@) =~= Seq::<Seq<char>>::empty());
    while j < idxs.len()
        invariant
            j <= idxs@.len(),
            list == picked(ms@, idxs@),
            keys == list.map_values(|m: RawScheduledMeeting| title_key(m)),
            forall|k: int| 0 <= k < idxs@.len() ==> #[trigger] idxs@[k] < ms@.len(),
            chars_view(ts@) == distinct(keys.take(j as int)),
        decreases idxs@.len() - j,
    {
        let t = trimmed(ms[idxs[j]].course_title.as_str());
        assert(keys.take(j + 1).drop_last() =~= keys.take(j as int));
        assert(keys.take(j + 1).last() == t@);
        push_distinct_chars(&mut ts, t);
        j += 1;
    }
    assert(keys.take(keys.len() as int) =~= keys);
    let ghost tv = chars_view(ts@);
    assert(tv == titles(list));
    let mut groups: Vec<Vec<usize>> = Vec::new();
    let mut a: usize = 0;
    while a < ts.len()
        invariant
            a <= ts@.len(),
            list == picked(ms@, idxs@),
            tv == chars_view(ts@),
            tv == titles(list),
            forall|k: int| 0 <= k < idxs@.len() ==> #[trigger] idxs@[k] < ms@.len(),
            groups@.len() == a,
            forall|x: int| 0 <= x < a ==> picked(ms@, (#[trigger] groups@[x])@) == by_title(list, tv[x]),
            forall|x: int, q: int|
                0 <= x < groups@.len() && 0 <= q < groups@[x]@.len() ==> #[trigger] groups@[x]@[q] < ms@.len(),
        decreases ts@.len() - a,
    {
        let mut g: Vec<usize> = Vec::new();
        let mut b: usize = 0;
        assert(list.take(0) =~= Seq::<RawScheduledMeeting>::empty());
        assert(picked(ms@, g@) =~= Seq::<RawScheduledMeeting>::empty());
        assert(tv[a as int] == ts@[a as int]@);
        while b < idxs.len()
            invariant
                b <= idxs@.len(),
                a < ts@.len(),
                list == picked(ms@, idxs@),
                tv == chars_view(ts@),
                forall|k: int| 0 <= k < idxs@.len() ==> #[trigger] idxs@[k] < ms@.len(),
                picked(ms@, g@) == by_title(list.take(b as int), tv[a as int]),
                forall|q: int| 0 <= q < g@.len() ==> #[trigger] g@[q] < ms@.len(),
            decreases idxs@.len() - b,
        {
            let x = idxs[b];
            assert(list.take(b + 1).drop_last() =~= list.take(b as int));
            assert(list.take(b + 1).last() == ms@[x as int]);
            let t = trimmed(ms[x].course_title.as_str());
            if crate::text::chars_eq(t.as_slice(), ts[a].as_slice()) {
                assert(picked(ms@, g@.push(x)) =~= picked(ms@, g@).push(ms@[x as int]));
                g.push(x);
            }
            b += 1;
        }
        assert(list.take(list.len() as int) =~= list);
        let ghost before = groups@;
        groups.push(g);
        assert forall|x: int| 0 <= x < a + 1 implies picked(ms@, (#[trigger] groups@[x])@) == by_title(list, tv[x]) by {
            if x < a {
                assert(groups@[x] == before[x]);
            }
        }
        a += 1;
    }
    groups
}

/// Parses the sections of the groups `groups` of meetings of `ms`, whose
/// meetings are those of `list` with the titles `ts`.
fn groups_of(
    ms: &Vec<RawScheduledMeeting>,
    groups: &Vec<Vec<usize>>,
    Ghost(list): Ghost<Seq<RawScheduledMeeting>>,
    Ghost(ts): Ghost<Seq<Seq<char>>>,
    special: bool,
) -> (r: Parsed<Vec<ScheduledSection>>)
    requires
        groups@.len() == ts.len(),
        forall|j: int| 0 <= j < groups@.len() ==> picked(ms@, (#[trigger] groups@[j])@) == by_title(list, ts[j]),
        forall|j: int, q: int| 0 <= j < groups@.len() && 0 <= q < groups@[j]@.len() ==> #[trigger] groups@[j]@[q] < ms@.len(),
        special ==> forall|j: int| 0 <= j < groups@.len() ==> (#[trigger] groups@[j])@.len() > 0,
    ensures
        parsed_matches(r, groups_sections(list, ts, special), |v: Vec<ScheduledSection>| schedule_view(v@)),
{
    let mut out: Vec<ScheduledSection> = Vec::new();
    let mut j: usize = 0;
    assert(ts.take(0) =~= Seq::<Seq<char>>::empty());
    assert(schedule_view(out@) =~= Seq::<ScheduledSectionView>::empty());
    while j < groups.len()
        invariant
            j <= groups@.len(),
            groups@.len() == ts.len(),
            forall|k: int| 0 <= k < groups@.len() ==> picked(ms@, (#[trigger] groups@[k])@) == by_title(list, ts[k]),
            forall|k: int, q: int| 0 <= k < groups@.len() && 0 <= q < groups@[k]@.len() ==> #[trigger] groups@[k]@[q] < ms@.len(),
            special ==> forall|k: int| 0 <= k < groups@.len() ==> (#[trigger] groups@[k])@.len() > 0,
            groups_sections(list, ts.take(j as int), special) == Outcome::Done(schedule_view(out@)),
        decreases groups@.len() - j,
    {
        let g = &groups[j];
        assert(ts.take(j + 1).drop_last() =~= ts.take(j as int));
        assert(ts.take(j + 1).last() == ts[j as int]);
        assert(picked(ms@, g@) == by_title(list, ts[j as int]));
        assert(forall|q: int| 0 <= q < g@.len() ==> #[trigger] g@[q] < ms@.len()) by {
            assert forall|q: int| 0 <= q < g@.len() implies #[trigger] g@[q] < ms@.len() by {
                assert(groups@[j as int]@[q] < ms@.len());
            }
        }
        let res = if special {
            special_section_of(ms, g)
        } else {
            base_section_of(ms, g)
        };
        match res {
            Parsed::Value(s) => {
                let ghost before = schedule_view(out@);
                out.push(s);
                assert(schedule_view(out@) =~= before + seq![s@]);
            },
            Parsed::Error(e) => {
                proof {
                    lemma_groups_sections_absorb(list, ts, special, j + 1);
                }
                return Parsed::Error(e);
            },
            Parsed::Crash => {
                proof {
                    lemma_groups_sections_absorb(list, ts, special, j + 1);
                }
                return Parsed::Crash;
            },
        }
        j += 1;
    }
    assert(ts.take(ts.len() as int) =~= ts);
    Parsed::Value(out)
}

} // verus!

verus! {

/// Parses a schedule, reporting a crash (an input that the parse does not
/// accept) as such.
fn schedule_core(res: &Vec<RawScheduledMeeting>) -> (r: Parsed<Vec<ScheduledSection>>)
    ensures
        parsed_matches(r, spec_schedule(res@), |v: Vec<ScheduledSection>| schedule_view(v@)),
{
    let mut base: Vec<usize> = Vec::new();
    let mut special: Vec<usize> = Vec::new();
    let mut i: usize = 0;
    assert(res@.take(0) =~= Seq::<RawScheduledMeeting>::empty());
    assert(picked(res@, base@) =~= Seq::<RawScheduledMeeting>::empty());
    assert(picked(res@, special@) =~= Seq::<RawScheduledMeeting>::empty());
    while i < res.len()
        invariant
            i <= res@.len(),
            picked(res@, base@) == sched_filter(res@.take(i as int), false),
            picked(res@, special@) == sched_filter(res@.take(i as int), true),
            forall|k: int| 0 <= k < base@.len() ==> #[trigger] base@[k] < res@.len(),
            forall|k: int| 0 <= k < special@.len() ==> #[trigger] special@[k] < res@.len(),
            forall|k: int| 0 <= k < i ==> sched_kept(#[trigger] res@[k]) ==> res@[k].sect_code@.len() > 0,
        decreases res@.len() - i,
    {
        let m = &res[i];
        assert(res@.take(i + 1).drop_last() =~= res@.take(i as int));
        assert(res@.take(i + 1).last() == res@[i as int]);
        let both_zero = match (m.enrolled_count, m.section_capacity) {
            (Some(e), Some(c)) => e == 0 && c == 0,
            _ => false,
        };
        if !both_zero {
            let code = str_chars(m.sect_code.as_str());
            if code.len() == 0 {
                assert(sched_kept(res@[i as int]) && res@[i as int].sect_code@.len() == 0);
                assert(sched_code_missing(res@));
                return Parsed::Crash;
            }
            if crate::text::char_is_digit(code[0]) {
                assert(picked(res@, special@.push(i)) =~= picked(res@, special@).push(res@[i as int]));
                special.push(i);
            } else {
                assert(picked(res@, base@.push(i)) =~= picked(res@, base@).push(res@[i as int]));
                base.push(i);
            }
        }
        i += 1;
    }
    assert(res@.take(res@.len() as int) =~= res@);
    assert(!sched_code_missing(res@));
    let ghost base_list = picked(res@, base@);
    let ghost special_list = picked(res@, special@);
    let base_groups = title_groups(res, &base);
    let mut out = match groups_of(res, &base_groups, Ghost(base_list), Ghost(titles(base_list)), false) {
        Parsed::Value(v) => v,
        Parsed::Error(e) => {
            return Parsed::Error(e);
        },
        Parsed::Crash => {
            return Parsed::Crash;
        },
    };
    let special_groups = title_groups(res, &special);
    proof {
        let ts = titles(special_list);
        assert forall|j: int| 0 <= j < special_groups@.len() implies (#[trigger] special_groups@[j])@.len() > 0 by {
            lemma_distinct_contains(special_list.map_values(|m: RawScheduledMeeting| title_key(m)), ts[j]);
            lemma_by_title_nonempty(special_list, ts[j]);
            assert(picked(res@, special_groups@[j]@).len() == special_groups@[j]@.len());
        }
    }
    let ghost v = schedule_view(out@);
    match groups_of(res, &special_groups, Ghost(special_list), Ghost(titles(special_list)), true) {
        Parsed::Value(mut w) => {
            let ghost wv = schedule_view(w@);
            out.append(&mut w);
            assert(schedule_view(out@) =~= v + wv);
            Parsed::Value(out)
        },
        Parsed::Error(e) => Parsed::Error(e),
        Parsed::Crash => Parsed::Crash,
    }
}

/// Processes the vector containing the raw scheduled meeting objects.
///
/// The sections of courses come in the order in which each course first
/// appears: first those of courses that are not special sections, then the
/// special sections.
///
/// # Parameters
/// - `res`: The vector of raw scheduled meeting objects.
///
/// # Returns
/// Either the parsed schedule information or an error.
pub fn parse_schedule(res: Vec<RawScheduledMeeting>) -> (r: crate::types::Result<crate::types::Schedule>)
    requires
        !(spec_schedule(res@) is Crashed),
    ensures
        result_matches(r, spec_schedule(res@), |v: Vec<ScheduledSection>| schedule_view(v@)),
{
    match schedule_core(&res) {
        Parsed::Value(v) => Ok(v),
        Parsed::Error(e) => Err(e),
        Parsed::Crash => {
            proof {
                assert(false);
            }
            Ok(Vec::new())
        },
    }
}

/// Whether [`parse_schedule`] accepts the meetings: every kept meeting has a
/// section code, every course has main meetings of one type, and no
/// subtraction of the enrollment figures overflows, up to where it stops.
pub fn schedule_accepted(res: &Vec<RawScheduledMeeting>) -> (r: bool)
    ensures
        r == !(spec_schedule(res@) is Crashed),
{
    match schedule_core(res) {
        Parsed::Crash => false,
        _ => true,
    }
}

/// Parses a schedule, or gives `None` for one that [`parse_schedule`] does not accept.
pub fn try_parse_schedule(res: Vec<RawScheduledMeeting>) -> (r: Option<crate::types::Result<crate::types::Schedule>>)
    ensures
        r is None <==> spec_schedule(res@) is Crashed,
        r matches Some(x) ==> result_matches(x, spec_schedule(res@), |v: Vec<ScheduledSection>| schedule_view(v@)),
{
    if schedule_accepted(&res) {
        Some(parse_schedule(res))
    } else {
        None
    }
}

} // verus!

verus! {

// ---------------------------------------------------------------------------
// Search URLs
// ---------------------------------------------------------------------------

/// What `Url::parse_with_params` gives for the base URL `base` and the query
/// pairs `params`: `None` when `base` does not parse, else the serialized URL.
pub uninterp spec fn spec_url_with_params(base: Seq<char>, params: Seq<(Seq<char>, Seq<char>)>) -> Option<Seq<char>>;

/// The characters of each key and value of a list of query pairs.
pub open spec fn pairs_view(v: Seq<(String, String)>) -> Seq<(Seq<char>, Seq<char>)> {
    v.map_values(|p: (String, String)| (p.0@, p.1@))
}

/// `url::Url::parse_with_params`, serialized. It parses `base` and appends
/// the pairs, form-encoded, to its query; its result is named
/// `spec_url_with_params` (the URL standard's parsing and encoding are not
/// stated here).
#[verifier::external_body]
pub(crate) fn url_with_params(base: &str, params: &Vec<(String, String)>) -> (r: core::result::Result<String, url::ParseError>)
    ensures
        r matches Ok(u) ==> spec_url_with_params(base@, pairs_view(params@)) == Some(u@),
        r is Err ==> spec_url_with_params(base@, pairs_view(params@)) is None,
{
    match url::Url::parse_with_params(base, params) {
        Ok(u) => Ok(String::from(u)),
        Err(e) => Err(e),
    }
}

/// The address of WebReg's search by section ID.
pub open spec fn search_sec_base() -> Seq<char> {
    "https://act.ucsd.edu/webreg2/svc/wradapter/secure/search-by-sectionid?"@
}

/// The address of WebReg's search by all criteria.
pub open spec fn search_all_base() -> Seq<char> {
    "https://act.ucsd.edu/webreg2/svc/wradapter/secure/search-by-all?"@
}

/// The uppercase form of an optional text, or nothing.
pub open spec fn upper_or_empty(s: Option<Seq<char>>) -> Seq<char> {
    match s {
        Some(x) => upper_text(x),
        None => Seq::empty(),
    }
}

/// A bit mask as WebReg takes it: nothing for zero, else its binary digits
/// padded with zeros to `width`.
pub open spec fn mask_text(m: u32, width: nat) -> Seq<char> {
    if m == 0 {
        Seq::empty()
    } else {
        zero_pad(nat_bits(m as nat), width)
    }
}

/// A time as `HHMM`, or nothing.
pub open spec fn hhmm_text(t: Option<(u32, u32)>) -> Seq<char> {
    match t {
        Some((h, m)) => zero_pad(nat_digits(h as nat), 2) + zero_pad(nat_digits(m as nat), 2),
        None => Seq::empty(),
    }
}

/// The time range of a search: nothing when neither end is set, else
/// `start:end`.
pub open spec fn time_text(start: Option<(u32, u32)>, end: Option<(u32, u32)>) -> Seq<char> {
    if start is None && end is None {
        Seq::empty()
    } else {
        hhmm_text(start) + seq![':'] + hhmm_text(end)
    }
}

/// The query pairs of an advanced search in the term `term`, sent at `timestamp`.
pub open spec fn advanced_params(r: SearchRequestView, term: Seq<char>, timestamp: u128) -> Seq<(Seq<char>, Seq<char>)> {
    seq![
        ("subjcode"@, join(r.subjects, seq![':'])),
        ("crsecode"@, if r.courses.len() == 0 { Seq::empty() } else { spec_format_multiple_courses(r.courses) }),
        ("department"@, join(r.departments, seq![':'])),
        ("professor"@, upper_or_empty(r.instructor)),
        ("title"@, upper_or_empty(r.title)),
        ("levels"@, mask_text(r.level_filter, 12)),
        ("days"@, mask_text(r.days, 7)),
        ("timestr"@, time_text(r.start_time, r.end_time)),
        ("opensection"@, if r.only_open { "true"@ } else { "false"@ }),
        ("isbasic"@, "true"@),
        ("basicsearchvalue"@, Seq::empty()),
        ("termcode"@, term),
        ("_"@, nat_digits(timestamp as nat)),
    ]
}

/// The base URL and query pairs of a search in the term `term`, sent at `timestamp`.
pub open spec fn search_url_parts(filter_by: SearchType, term: Seq<char>, timestamp: u128) -> (Seq<char>, Seq<(Seq<char>, Seq<char>)>) {
    match filter_by {
        SearchType::BySection(section) => (search_sec_base(), seq![("sectionid"@, section@), ("termcode"@, term)]),
        SearchType::ByMultipleSections(sections) => (
            search_sec_base(),
            seq![("sectionid"@, join(strs_view(sections@), seq![':'])), ("termcode"@, term)],
        ),
        SearchType::Advanced(req) => (search_all_base(), advanced_params(req@, term, timestamp)),
    }
}

/// The strings of `v` joined with `sep`.
pub(crate) fn join_strs(v: &Vec<String>, sep: char) -> (r: String)
    ensures
        r@ == join(strs_view(v@), seq![sep]),
{
    let ghost parts = strs_view(v@);
    let sepv = vec![sep];
    assert(sepv@ =~= seq![sep]);
    let mut out: Vec<char> = Vec::new();
    let mut i: usize = 0;
    assert(parts.take(0) =~= Seq::<Seq<char>>::empty());
    while i < v.len()
        invariant
            i <= v@.len(),
            parts == strs_view(v@),
            sepv@ == seq![sep],
            out@ == join(parts.take(i as int), seq![sep]),
        decreases v@.len() - i,
    {
        let p = str_chars(v[i].as_str());
        assert(parts.take(i + 1) =~= parts.take(i as int).push(p@));
        proof {
            lemma_join_push(parts.take(i as int), seq![sep], p@);
        }
        join_push(&mut out, i, sepv.as_slice(), p.as_slice());
        i += 1;
    }
    assert(parts.take(parts.len() as int) =~= parts);
    string_from_chars(out.as_slice())
}

/// A bit mask as WebReg takes it.
fn mask_string(m: u32, width: usize) -> (r: String)
    ensures
        r@ == mask_text(m, width as nat),
{
    if m == 0 {
        String::new()
    } else {
        let bits = u32_bits(m);
        let padded = zero_pad_chars(bits.as_slice(), width);
        string_from_chars(padded.as_slice())
    }
}

/// A time as `HHMM`, or nothing.
fn hhmm_chars(t: Option<(u32, u32)>) -> (r: Vec<char>)
    ensures
        r@ == hhmm_text(t),
{
    match t {
        Some((h, m)) => {
            let hd = u128_digits(h as u128);
            let md = u128_digits(m as u128);
            let mut r = zero_pad_chars(hd.as_slice(), 2);
            let mp = zero_pad_chars(md.as_slice(), 2);
            extend_chars(&mut r, mp.as_slice());
            r
        },
        None => Vec::new(),
    }
}

/// The time range of a search.
fn time_string(start: Option<(u32, u32)>, end: Option<(u32, u32)>) -> (r: String)
    ensures
        r@ == time_text(start, end),
{
    if start.is_none() && end.is_none() {
        String::new()
    } else {
        let mut r = hhmm_chars(start);
        r.push(':');
        let e = hhmm_chars(end);
        extend_chars(&mut r, e.as_slice());
        string_from_chars(r.as_slice())
    }
}

/// The uppercase form of an optional text, or nothing.
fn upper_or_empty_string(s: &Option<String>) -> (r: String)
    ensures
        r@ == upper_or_empty(opt_view(*s)),
{
    match s {
        Some(x) => uppercase(x.as_str()),
        None => String::new(),
    }
}

/// Appends the pair `(key, value)` to `params`.
pub(crate) fn push_pair(params: &mut Vec<(String, String)>, key: &str, value: String)
    ensures
        pairs_view(final(params)@) == pairs_view(old(params)@).push((key@, value@)),
{
    let k = copy_string(key);
    let ghost before = pairs_view(params@);
    params.push((k, value));
    assert(pairs_view(params@) =~= before.push((key@, value@)));
}

/// The query pairs of an advanced search.
fn advanced_params_of(req: &SearchRequestBuilder, term: &str, timestamp: u128) -> (r: Vec<(String, String)>)
    ensures
        pairs_view(r@) == advanced_params(req@, term@, timestamp),
{
    proof {
        reveal_strlit("true");
        reveal_strlit("false");
    }
    let mut p: Vec<(String, String)> = Vec::new();
    push_pair(&mut p, "subjcode", join_strs(&req.subjects, ':'));
    let crse = if req.courses.len() == 0 {
        String::new()
    } else {
        let mut q: Vec<&str> = Vec::new();
        let mut i: usize = 0;
        while i < req.courses.len()
            invariant
                i <= req.courses@.len(),
                q@.map_values(|s: &str| s@) == strs_view(req.courses@).take(i as int),
            decreases req.courses@.len() - i,
        {
            let ghost before = q@.map_values(|s: &str| s@);
            q.push(req.courses[i].as_str());
            assert(q@.map_values(|s: &str| s@) =~= before.push(req.courses@[i as int]@));
            assert(strs_view(req.courses@).take(i + 1) =~= strs_view(req.courses@).take(i as int).push(
                req.courses@[i as int]@,
            ));
            i += 1;
        }
        assert(strs_view(req.courses@).take(req.courses@.len() as int) =~= strs_view(req.courses@));
        format_multiple_courses(q.as_slice())
    };
    push_pair(&mut p, "crsecode", crse);
    push_pair(&mut p, "department", join_strs(&req.departments, ':'));
    push_pair(&mut p, "professor", upper_or_empty_string(&req.instructor));
    push_pair(&mut p, "title", upper_or_empty_string(&req.title));
    push_pair(&mut p, "levels", mask_string(req.level_filter, 12));
    push_pair(&mut p, "days", mask_string(req.days, 7));
    push_pair(&mut p, "timestr", time_string(req.start_time, req.end_time));
    let open = if req.only_open {
        copy_string("true")
    } else {
        copy_string("false")
    };
    push_pair(&mut p, "opensection", open);
    push_pair(&mut p, "isbasic", copy_string("true"));
    push_pair(&mut p, "basicsearchvalue", String::new());
    push_pair(&mut p, "termcode", copy_string(term));
    let ts = u128_digits(timestamp);
    push_pair(&mut p, "_", string_from_chars(ts.as_slice()));
    assert(pairs_view(p@) =~= advanced_params(req@, term@, timestamp));
    p
}

/// Builds the URL that can be used to search courses on WebReg.
///
/// # Parameters
/// - `filter_by`: The search type.
/// - `term`: The term.
/// - `timestamp`: The time of the request, in milliseconds since the Unix
///   epoch; an advanced search sends it so that no cached answer comes back.
///
/// # Returns
/// The resulting URL that can be used to search for courses.
pub fn build_search_course_url(filter_by: SearchType, term: &str, timestamp: u128) -> (r: crate::types::Result<String>)
    ensures
        r matches Ok(u) ==> spec_url_with_params(
            search_url_parts(filter_by, term@, timestamp).0,
            search_url_parts(filter_by, term@, timestamp).1,
        ) == Some(u@),
        r matches Err(e) ==> e is UrlParseError && spec_url_with_params(
            search_url_parts(filter_by, term@, timestamp).0,
            search_url_parts(filter_by, term@, timestamp).1,
        ) is None,
        r is Ok <==> spec_url_with_params(
            search_url_parts(filter_by, term@, timestamp).0,
            search_url_parts(filter_by, term@, timestamp).1,
        ) is Some,
{
    let (base, params) = match &filter_by {
        SearchType::BySection(section) => {
            let mut p: Vec<(String, String)> = Vec::new();
            push_pair(&mut p, "sectionid", copy_string(section.as_str()));
            push_pair(&mut p, "termcode", copy_string(term));
            assert(pairs_view(p@) =~= seq![("sectionid"@, section@), ("termcode"@, term@)]);
            ("https://act.ucsd.edu/webreg2/svc/wradapter/secure/search-by-sectionid?", p)
        },
        SearchType::ByMultipleSections(sections) => {
            let mut p: Vec<(String, String)> = Vec::new();
            push_pair(&mut p, "sectionid", join_strs(sections, ':'));
            push_pair(&mut p, "termcode", copy_string(term));
            assert(pairs_view(p@) =~= seq![
                ("sectionid"@, join(strs_view(sections@), seq![':'])),
                ("termcode"@, term@),
            ]);
            ("https://act.ucsd.edu/webreg2/svc/wradapter/secure/search-by-sectionid?", p)
        },
        SearchType::Advanced(req) => (
            "https://act.ucsd.edu/webreg2/svc/wradapter/secure/search-by-all?",
            advanced_params_of(req, term, timestamp),
        ),
    };
    match url_with_params(base, &params) {
        Ok(u) => Ok(u),
        Err(e) => Err(WrapperError::UrlParseError(e)),
    }
}

} // verus!

verus! {

// ---------------------------------------------------------------------------
// Laws of the parsed values
// ---------------------------------------------------------------------------

/// Every section has no negative number of available seats and at least one meeting.
pub open spec fn sections_well_formed(v: Seq<CourseSectionView>) -> bool {
    forall|i: int| 0 <= i < v.len() ==> (#[trigger] v[i]).available_seats >= 0 && v[i].meetings.len() >= 1
}

proof fn lemma_listing_meetings_len(list: Seq<RawWebRegMeeting>)
    ensures
        listing_meetings(list) matches Outcome::Done(mts) ==> mts.len() == list.len(),
    decreases list.len(),
{
    if list.len() > 0 {
        lemma_listing_meetings_len(list.drop_last());
    }
}

proof fn lemma_after_well_formed(v: Seq<CourseSectionView>, o: Outcome<Seq<CourseSectionView>>)
    requires
        sections_well_formed(v),
        o matches Outcome::Done(w) ==> sections_well_formed(w),
    ensures
        after(v, o) matches Outcome::Done(x) ==> sections_well_formed(x),
{
    if let Outcome::Done(w) = o {
        let x = v + w;
        assert forall|i: int| 0 <= i < x.len() implies (#[trigger] x[i]).available_seats >= 0 && x[i].meetings.len() >= 1 by {
            if i < v.len() {
                assert(x[i] == v[i]);
            } else {
                assert(x[i] == w[i - v.len()]);
            }
        }
    }
}

proof fn lemma_special_sections_well_formed(ms: Seq<RawWebRegMeeting>, subj: Seq<char>)
    ensures
        special_sections(ms, subj) matches Outcome::Done(v) ==> sections_well_formed(v),
    decreases ms.len(),
{
    if ms.len() > 0 {
        lemma_special_sections_well_formed(ms.drop_last(), subj);
        if let Outcome::Done(v) = special_sections(ms.drop_last(), subj) {
            lemma_after_well_formed(v, special_section(ms.last(), subj));
        }
    }
}

proof fn lemma_child_sections_well_formed(gen: Seq<RawWebRegMeeting>, child: Seq<RawWebRegMeeting>, subj: Seq<char>)
    ensures
        child_sections(gen, child, subj) matches Outcome::Done(v) ==> sections_well_formed(v),
    decreases child.len(),
{
    if child.len() > 0 {
        lemma_child_sections_well_formed(gen, child.drop_last(), subj);
        lemma_listing_meetings_len(gen.push(child.last()));
        if let Outcome::Done(v) = child_sections(gen, child.drop_last(), subj) {
            if let Outcome::Done(mts) = listing_meetings(gen.push(child.last())) {
                let s = listing_section(
                    child.last(),
                    subj,
                    child.last().section_id@,
                    child.last().sect_code@,
                    sorted_unique(sorted_unique(all_names(gen)) + spec_instructor_names(child.last().person_full_name@)),
                    mts,
                );
                assert forall|i: int| 0 <= i < v.push(s).len() implies (#[trigger] v.push(s)[i]).available_seats >= 0
                    && v.push(s)[i].meetings.len() >= 1 by {
                    if i < v.len() {
                        assert(v.push(s)[i] == v[i]);
                    }
                }
            }
        }
    }
}

proof fn lemma_families_sections_well_formed(rest: Seq<RawWebRegMeeting>, keys: Seq<char>, subj: Seq<char>)
    ensures
        families_sections(rest, keys, subj) matches Outcome::Done(v) ==> sections_well_formed(v),
    decreases keys.len(),
{
    if keys.len() > 0 {
        lemma_families_sections_well_formed(rest, keys.drop_last(), subj);
        let gen = select(rest, keys.last(), true);
        let child = select(rest, keys.last(), false);
        lemma_child_sections_well_formed(gen, child, subj);
        lemma_listing_meetings_len(gen);
        if let Outcome::Done(v) = families_sections(rest, keys.drop_last(), subj) {
            lemma_after_well_formed(v, family_sections(gen, child, subj));
        }
    }
}

/// In a course listing, no section has a negative number of available seats
/// (WebReg may report one; the listing shows zero), and every section has at
/// least one meeting.
pub proof fn lemma_course_info_well_formed(ms: Seq<RawWebRegMeeting>, subj: Seq<char>)
    ensures
        spec_course_info(ms, subj) matches Outcome::Done(v) ==> sections_well_formed(v),
{
    lemma_special_sections_well_formed(ms, subj);
    if let Outcome::Done(v) = special_sections(ms, subj) {
        let rest = listing_rest(ms);
        lemma_families_sections_well_formed(rest, families(rest), subj);
        lemma_after_well_formed(v, families_sections(rest, families(rest), subj));
    }
}

/// In the enrollment counts, no section has a negative number of available
/// seats, and no section lists meetings.
pub proof fn lemma_enrollment_count_seats(ms: Seq<RawWebRegMeeting>, subj: Seq<char>)
    ensures
        forall|i: int|
            0 <= i < spec_enrollment_count(ms, subj).len() ==> (#[trigger] spec_enrollment_count(ms, subj)[i]).available_seats
                >= 0 && spec_enrollment_count(ms, subj)[i].meetings.len() == 0,
    decreases ms.len(),
{
    if ms.len() > 0 {
        lemma_enrollment_count_seats(ms.drop_last(), subj);
        let p = spec_enrollment_count(ms.drop_last(), subj);
        let v = spec_enrollment_count(ms, subj);
        assert forall|i: int| 0 <= i < v.len() implies (#[trigger] v[i]).available_seats >= 0 && v[i].meetings.len() == 0 by {
            if i < p.len() {
                assert(v[i] == p[i]);
            }
        }
    }
}

/// Every section of the schedule has no negative number of available seats
/// and at least one meeting.
pub open spec fn schedule_well_formed(v: Seq<ScheduledSectionView>) -> bool {
    forall|i: int| 0 <= i < v.len() ==> (#[trigger] v[i]).available_seats >= 0 && v[i].meetings.len() >= 1
}

proof fn lemma_sched_meetings_len(list: Seq<RawScheduledMeeting>, kind: MeetingKind)
    ensures
        sched_meetings(list, kind) matches Outcome::Done(mts) ==> mts.len() == list.len(),
    decreases list.len(),
{
    if list.len() > 0 {
        lemma_sched_meetings_len(list.drop_last(), kind);
    }
}

proof fn lemma_groups_sections_well_formed(list: Seq<RawScheduledMeeting>, ts: Seq<Seq<char>>, special: bool)
    ensures
        groups_sections(list, ts, special) matches Outcome::Done(v) ==> schedule_well_formed(v),
    decreases ts.len(),
{
    if ts.len() > 0 {
        lemma_groups_sections_well_formed(list, ts.drop_last(), special);
        let g = by_title(list, ts.last());
        let mains = of_kind(g, MeetingKind::Main);
        lemma_sched_meetings_len(mains, MeetingKind::Main);
        if let Outcome::Done(v) = groups_sections(list, ts.drop_last(), special) {
            let o = if special { special_sched_section(g) } else { base_section(g) };
            if let Outcome::Done(w) = o {
                assert(w.len() == 1);
                let x = v + w;
                assert forall|i: int| 0 <= i < x.len() implies (#[trigger] x[i]).available_seats >= 0
                    && x[i].meetings.len() >= 1 by {
                    if i < v.len() {
                        assert(x[i] == v[i]);
                    } else {
                        assert(x[i] == w[0]);
                    }
                }
            }
        }
    }
}

/// In a schedule, no section has a negative number of available seats (the
/// capacity less the enrolled count, or zero), and every section has at
/// least one meeting.
pub proof fn lemma_schedule_well_formed(ms: Seq<RawScheduledMeeting>)
    ensures
        spec_schedule(ms) matches Outcome::Done(v) ==> schedule_well_formed(v),
{
    if !sched_code_missing(ms) {
        let base = sched_filter(ms, false);
        let special = sched_filter(ms, true);
        lemma_groups_sections_well_formed(base, titles(base), false);
        lemma_groups_sections_well_formed(special, titles(special), true);
        if let Outcome::Done(v) = groups_sections(base, titles(base), false) {
            if let Outcome::Done(w) = groups_sections(special, titles(special), true) {
                let x = v + w;
                assert forall|i: int| 0 <= i < x.len() implies (#[trigger] x[i]).available_seats >= 0
                    && x[i].meetings.len() >= 1 by {
                    if i < v.len() {
                        assert(x[i] == v[i]);
                    } else {
                        assert(x[i] == w[i - v.len()]);
                    }
                }
            }
        }
    }
}

} // verus!

verus! {

proof fn lemma_prereq_group_nonempty(res: Seq<RawPrerequisite>, id: Seq<char>)
    requires
        prereq_group_ids(res).contains(id),
    ensures
        prereq_group(res, id).len() > 0,
    decreases res.len(),
{
    let ids = prereq_group_ids(res);
    let p = prereq_group_ids(res.drop_last());
    let j = choose|j: int| 0 <= j < ids.len() && ids[j] == id;
    match res.last() {
        RawPrerequisite::Course(c) => {
            if c.prereq_seq_id@ != id {
                assert(ids == p.push(c.prereq_seq_id@));
                assert(j < p.len());
                assert(p[j] == id);
                lemma_prereq_group_nonempty(res.drop_last(), id);
            }
        },
        RawPrerequisite::Test(_) => {
            assert(ids == p);
            lemma_prereq_group_nonempty(res.drop_last(), id);
        },
    }
}

/// Each group of course prerequisites holds at least one course (any one of
/// which satisfies that requirement).
pub proof fn lemma_prerequisite_groups_nonempty(res: Seq<RawPrerequisite>)
    ensures
        forall|i: int|
            0 <= i < spec_prerequisites(res).course_prerequisites.len() ==> (#[trigger] spec_prerequisites(
                res,
            ).course_prerequisites[i]).len() > 0,
{
    let ids = distinct(prereq_group_ids(res));
    assert forall|i: int| 0 <= i < spec_prerequisites(res).course_prerequisites.len() implies (
    #[trigger] spec_prerequisites(res).course_prerequisites[i]).len() > 0 by {
        assert(ids.contains(ids[i]));
        lemma_distinct_contains(prereq_group_ids(res), ids[i]);
        lemma_prereq_group_nonempty(res, ids[i]);
    }
}

} // verus!

verus! {

/// The section `a` may come before the section `b` in a course listing:
/// special sections (codes that start with a digit) come first, then the
/// sections of each family (the first character of the code) in ascending order.
pub open spec fn listing_before(a: CourseSectionView, b: CourseSectionView) -> bool {
    is_digit(a.section_code[0]) || (!is_digit(b.section_code[0]) && a.section_code[0] <= b.section_code[0])
}

proof fn lemma_grouped_code(m: RawWebRegMeeting)
    requires
        listing_grouped(m),
    ensures
        m.sect_code@.len() > 0,
        !is_digit(m.sect_code@[0]),
{
    if m.sect_code@.len() == 0 {
        lemma_trim_empty(m.sect_code@);
    }
}

proof fn lemma_listing_rest_grouped(ms: Seq<RawWebRegMeeting>)
    ensures
        forall|i: int| 0 <= i < listing_rest(ms).len() ==> listing_grouped(#[trigger] listing_rest(ms)[i]),
    decreases ms.len(),
{
    if ms.len() > 0 {
        lemma_listing_rest_grouped(ms.drop_last());
        let p = listing_rest(ms.drop_last());
        if listing_grouped(ms.last()) {
            assert forall|i: int| 0 <= i < listing_rest(ms).len() implies listing_grouped(#[trigger] listing_rest(ms)[i]) by {
                if i < p.len() {
                    assert(listing_rest(ms)[i] == p[i]);
                }
            }
        }
    }
}

proof fn lemma_select_family(rest: Seq<RawWebRegMeeting>, k: char, general: bool)
    requires
        forall|i: int| 0 <= i < rest.len() ==> listing_grouped(#[trigger] rest[i]),
    ensures
        forall|i: int|
            0 <= i < select(rest, k, general).len() ==> listing_grouped(#[trigger] select(rest, k, general)[i])
                && family(select(rest, k, general)[i]) == k,
    decreases rest.len(),
{
    if rest.len() > 0 {
        assert forall|i: int| 0 <= i < rest.drop_last().len() implies listing_grouped(#[trigger] rest.drop_last()[i]) by {
            assert(rest.drop_last()[i] == rest[i]);
        }
        lemma_select_family(rest.drop_last(), k, general);
        let p = select(rest.drop_last(), k, general);
        let s = select(rest, k, general);
        assert(listing_grouped(rest[rest.len() - 1]));
        assert forall|i: int| 0 <= i < s.len() implies listing_grouped(#[trigger] s[i]) && family(s[i]) == k by {
            if i < p.len() {
                assert(s[i] == p[i]);
            }
        }
    }
}

/// The sections from meetings of the family `k` all have codes of that family.
pub open spec fn codes_of_family(v: Seq<CourseSectionView>, k: char) -> bool {
    forall|i: int| 0 <= i < v.len() ==> (#[trigger] v[i]).section_code.len() > 0 && v[i].section_code[0] == k
}

proof fn lemma_child_sections_family(gen: Seq<RawWebRegMeeting>, child: Seq<RawWebRegMeeting>, subj: Seq<char>, k: char)
    requires
        forall|i: int| 0 <= i < child.len() ==> listing_grouped(#[trigger] child[i]) && family(child[i]) == k,
    ensures
        child_sections(gen, child, subj) matches Outcome::Done(v) ==> codes_of_family(v, k),
    decreases child.len(),
{
    if child.len() > 0 {
        assert forall|i: int| 0 <= i < child.drop_last().len() implies listing_grouped(#[trigger] child.drop_last()[i])
            && family(child.drop_last()[i]) == k by {
            assert(child.drop_last()[i] == child[i]);
        }
        lemma_child_sections_family(gen, child.drop_last(), subj, k);
        let c = child.last();
        assert(listing_grouped(child[child.len() - 1]));
        lemma_grouped_code(c);
        if let Outcome::Done(v) = child_sections(gen, child.drop_last(), subj) {
            if let Outcome::Done(mts) = listing_meetings(gen.push(c)) {
                let s = listing_section(
                    c,
                    subj,
                    c.section_id@,
                    c.sect_code@,
                    sorted_unique(sorted_unique(all_names(gen)) + spec_instructor_names(c.person_full_name@)),
                    mts,
                );
                assert forall|i: int| 0 <= i < v.push(s).len() implies (#[trigger] v.push(s)[i]).section_code.len() > 0
                    && v.push(s)[i].section_code[0] == k by {
                    if i < v.len() {
                        assert(v.push(s)[i] == v[i]);
                    }
                }
            }
        }
    }
}

proof fn lemma_families_sections_order(rest: Seq<RawWebRegMeeting>, keys: Seq<char>, subj: Seq<char>)
    requires
        forall|i: int| 0 <= i < rest.len() ==> listing_grouped(#[trigger] rest[i]),
        chars_ascending(keys),
    ensures
        families_sections(rest, keys, subj) matches Outcome::Done(v) ==> {
            &&& forall|i: int|
                0 <= i < v.len() ==> (#[trigger] v[i]).section_code.len() > 0 && !is_digit(v[i].section_code[0])
                    && keys.contains(v[i].section_code[0])
            &&& forall|i: int, j: int|
                0 <= i < j < v.len() ==> (#[trigger] v[i]).section_code[0] <= (#[trigger] v[j]).section_code[0]
        },
    decreases keys.len(),
{
    if keys.len() > 0 {
        let pk = keys.drop_last();
        let k = keys.last();
        assert(chars_ascending(pk)) by {
            assert forall|i: int, j: int| 0 <= i < j < pk.len() implies #[trigger] pk[i] < #[trigger] pk[j] by {
                assert(pk[i] == keys[i] && pk[j] == keys[j]);
            }
        }
        lemma_families_sections_order(rest, pk, subj);
        let gen = select(rest, k, true);
        let child = select(rest, k, false);
        lemma_select_family(rest, k, true);
        lemma_select_family(rest, k, false);
        lemma_child_sections_family(gen, child, subj, k);
        if let Outcome::Done(w) = families_sections(rest, pk, subj) {
            if let Outcome::Done(f) = family_sections(gen, child, subj) {
                assert(codes_of_family(f, k)) by {
                    if gen.len() > 0 && child.len() == 0 {
                        assert(listing_grouped(gen[0]) && family(gen[0]) == k);
                        lemma_grouped_code(gen[0]);
                    }
                }
                assert(gen.len() > 0 ==> listing_grouped(gen[0]));
                let x = w + f;
                assert forall|i: int| 0 <= i < x.len() implies (#[trigger] x[i]).section_code.len() > 0 && !is_digit(
                    x[i].section_code[0],
                ) && keys.contains(x[i].section_code[0]) by {
                    if i < w.len() {
                        assert(x[i] == w[i]);
                        let q = choose|q: int| 0 <= q < pk.len() && pk[q] == w[i].section_code[0];
                        assert(keys[q] == pk[q]);
                    } else {
                        assert(x[i] == f[i - w.len()]);
                        assert(keys[keys.len() - 1] == k);
                        assert(gen.len() > 0);
                        assert(listing_grouped(gen[0]) && family(gen[0]) == k);
                        lemma_grouped_code(gen[0]);
                    }
                }
                assert forall|i: int, j: int| 0 <= i < j < x.len() implies (#[trigger] x[i]).section_code[0] <= (
                #[trigger] x[j]).section_code[0] by {
                    if j < w.len() {
                        assert(x[i] == w[i] && x[j] == w[j]);
                    } else if i >= w.len() {
                        assert(x[i] == f[i - w.len()] && x[j] == f[j - w.len()]);
                    } else {
                        assert(x[i] == w[i] && x[j] == f[j - w.len()]);
                        let q = choose|q: int| 0 <= q < pk.len() && pk[q] == w[i].section_code[0];
                        assert(keys[q] < keys[keys.len() - 1]);
                    }
                }
            }
        }
    }
}

} // verus!

verus! {

proof fn lemma_special_sections_codes(ms: Seq<RawWebRegMeeting>, subj: Seq<char>)
    ensures
        special_sections(ms, subj) matches Outcome::Done(v) ==> forall|i: int|
            0 <= i < v.len() ==> (#[trigger] v[i]).section_code.len() > 0 && is_digit(v[i].section_code[0]),
    decreases ms.len(),
{
    if ms.len() > 0 {
        lemma_special_sections_codes(ms.drop_last(), subj);
        let m = ms.last();
        if let Outcome::Done(v) = special_sections(ms.drop_last(), subj) {
            if !(listing_grouped(m) || listing_skipped(m)) {
                if let Outcome::Done(w) = special_section(m, subj) {
                    let s = m.sect_code@;
                    assert(crate::text::trim_start(s) == s);
                    crate::text::lemma_trim_end_ends(s);
                    assert(trim(s)[0] == s[0]);
                    let x = v + w;
                    assert forall|i: int| 0 <= i < x.len() implies (#[trigger] x[i]).section_code.len() > 0 && is_digit(
                        x[i].section_code[0],
                    ) by {
                        if i < v.len() {
                            assert(x[i] == v[i]);
                        } else {
                            assert(x[i] == w[0]);
                        }
                    }
                }
            }
        }
    }
}

/// A course listing comes in order: the special sections (codes that start
/// with a digit, e.g. `001`) first, then the sections of each family (`A`,
/// then `B`, ...), families in ascending order.
pub proof fn lemma_course_info_order(ms: Seq<RawWebRegMeeting>, subj: Seq<char>)
    ensures
        spec_course_info(ms, subj) matches Outcome::Done(v) ==> {
            &&& forall|i: int| 0 <= i < v.len() ==> (#[trigger] v[i]).section_code.len() > 0
            &&& forall|i: int, j: int| 0 <= i < j < v.len() ==> listing_before(#[trigger] v[i], #[trigger] v[j])
        },
{
    lemma_special_sections_codes(ms, subj);
    if let Outcome::Done(sp) = special_sections(ms, subj) {
        let rest = listing_rest(ms);
        lemma_listing_rest_grouped(ms);
        crate::grouping::lemma_sorted_chars(rest.map_values(|m: RawWebRegMeeting| family(m)));
        lemma_families_sections_order(rest, families(rest), subj);
        if let Outcome::Done(fs) = families_sections(rest, families(rest), subj) {
            let v = sp + fs;
            assert forall|i: int| 0 <= i < v.len() implies (#[trigger] v[i]).section_code.len() > 0 by {
                if i < sp.len() {
                    assert(v[i] == sp[i]);
                } else {
                    assert(v[i] == fs[i - sp.len()]);
                }
            }
            assert forall|i: int, j: int| 0 <= i < j < v.len() implies listing_before(#[trigger] v[i], #[trigger] v[j]) by {
                if j < sp.len() {
                    assert(v[i] == sp[i] && v[j] == sp[j]);
                } else if i >= sp.len() {
                    assert(v[i] == fs[i - sp.len()] && v[j] == fs[j - sp.len()]);
                } else {
                    assert(v[i] == sp[i] && v[j] == fs[j - sp.len()]);
                }
            }
        }
    }
}

} // verus!

verus! {

proof fn lemma_listing_meetings_contains(list: Seq<RawWebRegMeeting>)
    ensures
        listing_meetings(list) matches Outcome::Done(mts) ==> forall|j: int|
            0 <= j < list.len() ==> mts.contains(listing_meeting(#[trigger] list[j])),
    decreases list.len(),
{
    if list.len() > 0 {
        let p = list.drop_last();
        lemma_listing_meetings_contains(p);
        if let Outcome::Done(mts) = listing_meetings(list) {
            if let Outcome::Done(pm) = listing_meetings(p) {
                assert(mts == pm.push(listing_meeting(list.last())));
                assert forall|j: int| 0 <= j < list.len() implies mts.contains(listing_meeting(#[trigger] list[j])) by {
                    if j < p.len() {
                        assert(list[j] == p[j]);
                        let q = choose|q: int| 0 <= q < pm.len() && pm[q] == listing_meeting(p[j]);
                        assert(mts[q] == pm[q]);
                    } else {
                        assert(mts[pm.len() as int] == listing_meeting(list.last()));
                    }
                }
            }
        }
    }
}

proof fn lemma_select_contains(rest: Seq<RawWebRegMeeting>, k: char, j: int)
    requires
        0 <= j < rest.len(),
        family(rest[j]) == k,
        is_general(rest[j]),
    ensures
        select(rest, k, true).contains(rest[j]),
    decreases rest.len(),
{
    let p = rest.drop_last();
    if j < rest.len() - 1 {
        assert(p[j] == rest[j]);
        lemma_select_contains(p, k, j);
        let q = choose|q: int| 0 <= q < select(p, k, true).len() && select(p, k, true)[q] == rest[j];
        if family(rest.last()) == k && is_general(rest.last()) {
            assert(select(rest, k, true)[q] == select(p, k, true)[q]);
        }
    } else {
        let s = select(rest, k, true);
        assert(s[s.len() - 1] == rest[j]);
    }
}

proof fn lemma_listing_rest_contains(ms: Seq<RawWebRegMeeting>, j: int)
    requires
        0 <= j < ms.len(),
        listing_grouped(ms[j]),
    ensures
        listing_rest(ms).contains(ms[j]),
    decreases ms.len(),
{
    let p = ms.drop_last();
    if j < ms.len() - 1 {
        assert(p[j] == ms[j]);
        lemma_listing_rest_contains(p, j);
        let q = choose|q: int| 0 <= q < listing_rest(p).len() && listing_rest(p)[q] == ms[j];
        if listing_grouped(ms.last()) {
            assert(listing_rest(ms)[q] == listing_rest(p)[q]);
        }
    } else {
        let s = listing_rest(ms);
        assert(s[s.len() - 1] == ms[j]);
    }
}

/// Every section of `v` holds the listed form of every meeting of `gen`.
pub open spec fn sections_share(v: Seq<CourseSectionView>, gen: Seq<RawWebRegMeeting>) -> bool {
    forall|i: int, g: int|
        0 <= i < v.len() && 0 <= g < gen.len() ==> (#[trigger] v[i]).meetings.contains(listing_meeting(#[trigger] gen[g]))
}

proof fn lemma_child_sections_share(gen: Seq<RawWebRegMeeting>, child: Seq<RawWebRegMeeting>, subj: Seq<char>)
    ensures
        child_sections(gen, child, subj) matches Outcome::Done(v) ==> sections_share(v, gen),
    decreases child.len(),
{
    if child.len() > 0 {
        lemma_child_sections_share(gen, child.drop_last(), subj);
        let c = child.last();
        let gc = gen.push(c);
        lemma_listing_meetings_contains(gc);
        if let Outcome::Done(v) = child_sections(gen, child.drop_last(), subj) {
            if let Outcome::Done(mts) = listing_meetings(gc) {
                let s = listing_section(
                    c,
                    subj,
                    c.section_id@,
                    c.sect_code@,
                    sorted_unique(sorted_unique(all_names(gen)) + spec_instructor_names(c.person_full_name@)),
                    mts,
                );
                let w = v.push(s);
                assert forall|i: int, g: int|
                    0 <= i < w.len() && 0 <= g < gen.len() implies (#[trigger] w[i]).meetings.contains(
                    listing_meeting(#[trigger] gen[g]),
                ) by {
                    if i < v.len() {
                        assert(w[i] == v[i]);
                    } else {
                        assert(gc[g] == gen[g]);
                    }
                }
            }
        }
    }
}

proof fn lemma_family_sections_share(gen: Seq<RawWebRegMeeting>, child: Seq<RawWebRegMeeting>, subj: Seq<char>)
    ensures
        family_sections(gen, child, subj) matches Outcome::Done(v) ==> sections_share(v, gen),
{
    lemma_child_sections_share(gen, child, subj);
    lemma_listing_meetings_contains(gen);
}

proof fn lemma_families_sections_share(rest: Seq<RawWebRegMeeting>, keys: Seq<char>, subj: Seq<char>)
    requires
        forall|i: int| 0 <= i < rest.len() ==> listing_grouped(#[trigger] rest[i]),
    ensures
        families_sections(rest, keys, subj) matches Outcome::Done(v) ==> forall|i: int, r: int|
            0 <= i < v.len() && 0 <= r < rest.len() && is_general(#[trigger] rest[r]) && (#[trigger] v[i]).section_code.len()
                > 0 && v[i].section_code[0] == family(rest[r]) ==> v[i].meetings.contains(listing_meeting(rest[r])),
    decreases keys.len(),
{
    if keys.len() > 0 {
        let pk = keys.drop_last();
        let k = keys.last();
        lemma_families_sections_share(rest, pk, subj);
        let gen = select(rest, k, true);
        let child = select(rest, k, false);
        lemma_select_family(rest, k, true);
        lemma_select_family(rest, k, false);
        lemma_child_sections_family(gen, child, subj, k);
        lemma_family_sections_share(gen, child, subj);
        if let Outcome::Done(w) = families_sections(rest, pk, subj) {
            if let Outcome::Done(f) = family_sections(gen, child, subj) {
                assert(codes_of_family(f, k)) by {
                    if gen.len() > 0 && child.len() == 0 {
                        assert(listing_grouped(gen[0]) && family(gen[0]) == k);
                        lemma_grouped_code(gen[0]);
                    }
                }
                let x = w + f;
                assert forall|i: int, r: int|
                    0 <= i < x.len() && 0 <= r < rest.len() && is_general(#[trigger] rest[r]) && (
                    #[trigger] x[i]).section_code.len() > 0 && x[i].section_code[0] == family(rest[r]) implies x[i].meetings.contains(
                    listing_meeting(rest[r]),
                ) by {
                    if i < w.len() {
                        assert(x[i] == w[i]);
                    } else {
                        assert(x[i] == f[i - w.len()]);
                        assert(family(rest[r]) == k);
                        lemma_select_contains(rest, k, r);
                        let g = choose|g: int| 0 <= g < gen.len() && gen[g] == rest[r];
                        assert(f[i - w.len()].meetings.contains(listing_meeting(gen[g])));
                    }
                }
            }
        }
    }
}

/// In a course listing, a meeting that cannot be enrolled in (display type
/// `NC`, e.g. a lecture or a shared discussion) is never dropped, whatever its
/// section code: every section of its family lists it.
pub proof fn lemma_course_info_keeps_shared_meetings(ms: Seq<RawWebRegMeeting>, subj: Seq<char>)
    ensures
        spec_course_info(ms, subj) matches Outcome::Done(v) ==> forall|i: int, j: int|
            0 <= i < v.len() && 0 <= j < ms.len() && listing_grouped(#[trigger] ms[j]) && ms[j].display_type@ == nc()
                && (#[trigger] v[i]).section_code.len() > 0 && v[i].section_code[0] == ms[j].sect_code@[0]
                ==> v[i].meetings.contains(listing_meeting(ms[j])),
{
    lemma_special_sections_codes(ms, subj);
    if let Outcome::Done(sp) = special_sections(ms, subj) {
        let rest = listing_rest(ms);
        lemma_listing_rest_grouped(ms);
        lemma_families_sections_share(rest, families(rest), subj);
        if let Outcome::Done(fs) = families_sections(rest, families(rest), subj) {
            let v = sp + fs;
            assert forall|i: int, j: int|
                0 <= i < v.len() && 0 <= j < ms.len() && listing_grouped(#[trigger] ms[j]) && ms[j].display_type@
                    == nc() && (#[trigger] v[i]).section_code.len() > 0 && v[i].section_code[0] == ms[j].sect_code@[0]
                implies v[i].meetings.contains(listing_meeting(ms[j])) by {
                lemma_grouped_code(ms[j]);
                if i < sp.len() {
                    assert(v[i] == sp[i]);
                } else {
                    assert(v[i] == fs[i - sp.len()]);
                    lemma_listing_rest_contains(ms, j);
                    let r = choose|r: int| 0 <= r < rest.len() && rest[r] == ms[j];
                    assert(is_general(rest[r]));
                }
            }
        }
    }
}

} // verus!

verus! {

/// The values that the pairs `ps` give the key `key`, in order.
pub open spec fn pair_values(ps: Seq<(Seq<char>, Seq<char>)>, key: Seq<char>) -> Seq<Seq<char>>
    decreases ps.len(),
{
    if ps.len() == 0 {
        Seq::empty()
    } else if ps.last().0 == key {
        pair_values(ps.drop_last(), key).push(ps.last().1)
    } else {
        pair_values(ps.drop_last(), key)
    }
}

/// `t` is a time `HHMM` of four decimal digits that reads as `h` hours and `m` minutes.
pub open spec fn reads_as_hhmm(t: Seq<char>, h: u32, m: u32) -> bool {
    &&& t.len() == 4
    &&& all_digits(t)
    &&& digits_value(t.subrange(0, 2)) == h
    &&& digits_value(t.subrange(2, 4)) == m
}

proof fn lemma_two_digits(n: nat)
    requires
        n < 100,
    ensures
        zero_pad(nat_digits(n), 2).len() == 2,
        all_digits(zero_pad(nat_digits(n), 2)),
        digits_value(zero_pad(nat_digits(n), 2)) == n,
{
    let z = zero_pad(nat_digits(n), 2);
    if n < 10 {
        assert(nat_digits(n) == seq![digit_char(n as int)]);
        assert(z =~= seq!['0', digit_char(n as int)]);
        assert(z.drop_last() =~= seq!['0']);
        assert(seq!['0'].drop_last() =~= Seq::<char>::empty());
        assert(digit_value(digit_char(n as int)) == n);
        assert(digits_value(seq!['0']) == digits_value(Seq::<char>::empty()) * 10 + digit_value('0'));
        assert(digits_value(z) == digits_value(z.drop_last()) * 10 + digit_value(z.last()));
    } else {
        let a = n / 10;
        let b = n % 10;
        assert(a < 10);
        assert(nat_digits(a) == seq![digit_char(a as int)]);
        assert(nat_digits(n) == nat_digits(a).push(digit_char(b as int)));
        assert(z =~= seq![digit_char(a as int), digit_char(b as int)]);
        assert(z.drop_last() =~= seq![digit_char(a as int)]);
        assert(seq![digit_char(a as int)].drop_last() =~= Seq::<char>::empty());
        assert(n == a * 10 + b);
        assert(digit_value(digit_char(a as int)) == a);
        assert(digit_value(digit_char(b as int)) == b);
        let f = seq![digit_char(a as int)];
        assert(digits_value(f) == digits_value(f.drop_last()) * 10 + digit_value(f.last()));
        assert(digits_value(z) == digits_value(z.drop_last()) * 10 + digit_value(z.last()));
    }
}

proof fn lemma_hhmm_text_reads(h: u32, m: u32)
    requires
        h < 100,
        m < 100,
    ensures
        reads_as_hhmm(hhmm_text(Some((h, m))), h, m),
{
    lemma_two_digits(h as nat);
    lemma_two_digits(m as nat);
    let a = zero_pad(nat_digits(h as nat), 2);
    let b = zero_pad(nat_digits(m as nat), 2);
    let t = a + b;
    assert(t.subrange(0, 2) =~= a);
    assert(t.subrange(2, 4) =~= b);
    assert forall|i: int| 0 <= i < t.len() implies is_digit(#[trigger] t[i]) by {
        if i < 2 {
            assert(t[i] == a[i]);
        } else {
            assert(t[i] == b[i - 2]);
        }
    }
}

/// The time range of an advanced search: with neither time set, `timestr` is
/// empty; else it is the start time as `HHMM` (when set), `:`, and the end
/// time as `HHMM` (when set), each reading back as the hour and minute that
/// were set. (Hours and minutes of more than two digits are left out.)
pub proof fn lemma_search_time_range(r: SearchRequestView, term: Seq<char>, timestamp: u128)
    requires
        r.start_time matches Some((h, m)) ==> h < 100 && m < 100,
        r.end_time matches Some((h, m)) ==> h < 100 && m < 100,
    ensures
        pair_values(advanced_params(r, term, timestamp), "timestr"@).len() == 1,
        ({
            let v = pair_values(advanced_params(r, term, timestamp), "timestr"@)[0];
            let a: int = if r.start_time is Some { 4 } else { 0 };
            let b: int = if r.end_time is Some { 4 } else { 0 };
            &&& r.start_time is None && r.end_time is None ==> v.len() == 0
            &&& r.start_time is Some || r.end_time is Some ==> {
                &&& v.len() == a + 1 + b
                &&& v[a] == ':'
                &&& r.start_time matches Some((h, m)) ==> reads_as_hhmm(v.subrange(0, 4), h, m)
                &&& r.end_time matches Some((h, m)) ==> reads_as_hhmm(v.subrange(a + 1, a + 5), h, m)
            }
        }),
{
    reveal_strlit("subjcode");
    reveal_strlit("crsecode");
    reveal_strlit("department");
    reveal_strlit("professor");
    reveal_strlit("title");
    reveal_strlit("levels");
    reveal_strlit("days");
    reveal_strlit("timestr");
    reveal_strlit("opensection");
    reveal_strlit("isbasic");
    reveal_strlit("basicsearchvalue");
    reveal_strlit("termcode");
    reveal_strlit("_");
    let ps = advanced_params(r, term, timestamp);
    let tt = time_text(r.start_time, r.end_time);
    assert(ps[7] == ("timestr"@, tt));
    assert forall|i: int| 0 <= i < ps.len() && i != 7 implies #[trigger] ps[i].0 != "timestr"@ by {
        assert(ps[i].0.len() != 7 || ps[i].0[0] != 't');
    }
    assert forall|k: int| 0 <= k <= ps.len() implies #[trigger] pair_values(ps.take(k), "timestr"@) == if k > 7 {
        seq![tt]
    } else {
        Seq::<Seq<char>>::empty()
    } by {
        lemma_pair_values_prefix(ps, "timestr"@, 7, tt, k);
    }
    assert(ps.take(ps.len() as int) =~= ps);
    let v = tt;
    if let Some((h, m)) = r.start_time {
        lemma_hhmm_text_reads(h, m);
    }
    if let Some((h, m)) = r.end_time {
        lemma_hhmm_text_reads(h, m);
    }
    let a: int = if r.start_time is Some { 4 } else { 0 };
    let s = hhmm_text(r.start_time);
    let e = hhmm_text(r.end_time);
    if r.start_time is Some || r.end_time is Some {
        assert(v == s + seq![':'] + e);
        assert(s.len() == a);
        if r.start_time is Some {
            assert(v.subrange(0, 4) =~= s);
        }
        if r.end_time is Some {
            assert(v.subrange(a + 1, a + 5) =~= e);
        }
    }
}

proof fn lemma_pair_values_prefix(ps: Seq<(Seq<char>, Seq<char>)>, key: Seq<char>, at: int, val: Seq<char>, k: int)
    requires
        0 <= at < ps.len(),
        ps[at] == (key, val),
        forall|i: int| 0 <= i < ps.len() && i != at ==> #[trigger] ps[i].0 != key,
        0 <= k <= ps.len(),
    ensures
        pair_values(ps.take(k), key) == if k > at { seq![val] } else { Seq::<Seq<char>>::empty() },
    decreases k,
{
    if k > 0 {
        lemma_pair_values_prefix(ps, key, at, val, k - 1);
        assert(ps.take(k).drop_last() =~= ps.take(k - 1));
        assert(ps.take(k).last() == ps[k - 1]);
        if k - 1 == at {
            assert(Seq::<Seq<char>>::empty().push(val) =~= seq![val]);
        }
    }
}

} // verus!

verus! {

proof fn lemma_first_where_in<A>(s: Seq<A>, p: spec_fn(A) -> bool)
    ensures
        first_where(s, p) matches Some(x) ==> s.contains(x),
    decreases s.len(),
{
    if s.len() > 0 {
        lemma_first_where_in(s.drop_last(), p);
        if let Some(x) = first_where(s.drop_last(), p) {
            let j = choose|j: int| 0 <= j < s.drop_last().len() && s.drop_last()[j] == x;
            assert(s[j] == x);
        } else if p(s.last()) {
            assert(s[s.len() - 1] == s.last());
        }
    }
}

proof fn lemma_distinct_has<A>(s: Seq<A>, x: A)
    requires
        s.contains(x),
    ensures
        distinct(s).contains(x),
    decreases s.len(),
{
    let p = distinct(s.drop_last());
    if s.last() == x {
        if !p.contains(x) {
            assert(p.push(x)[p.len() as int] == x);
        }
    } else {
        let j = choose|j: int| 0 <= j < s.len() && s[j] == x;
        assert(s.drop_last()[j] == x);
        lemma_distinct_has(s.drop_last(), x);
        if !p.contains(s.last()) {
            let k = choose|k: int| 0 <= k < p.len() && p[k] == x;
            assert(p.push(s.last())[k] == x);
        }
    }
}

proof fn lemma_by_title_members(list: Seq<RawScheduledMeeting>, t: Seq<char>)
    ensures
        forall|i: int| 0 <= i < by_title(list, t).len() ==> list.contains(#[trigger] by_title(list, t)[i]) && title_key(
            by_title(list, t)[i],
        ) == t,
        forall|j: int| 0 <= j < list.len() && title_key(#[trigger] list[j]) == t ==> by_title(list, t).contains(list[j]),
    decreases list.len(),
{
    if list.len() > 0 {
        let p = list.drop_last();
        lemma_by_title_members(p, t);
        let bp = by_title(p, t);
        let b = by_title(list, t);
        assert forall|i: int| 0 <= i < b.len() implies list.contains(#[trigger] b[i]) && title_key(b[i]) == t by {
            if i < bp.len() {
                assert(b[i] == bp[i]);
                let k = choose|k: int| 0 <= k < p.len() && p[k] == bp[i];
                assert(list[k] == p[k]);
            } else {
                assert(b[i] == list.last());
                assert(list[list.len() - 1] == list.last());
            }
        }
        assert forall|j: int| 0 <= j < list.len() && title_key(#[trigger] list[j]) == t implies b.contains(list[j]) by {
            if j < p.len() {
                assert(p[j] == list[j]);
                let k = choose|k: int| 0 <= k < bp.len() && bp[k] == list[j];
                if title_key(list.last()) == t {
                    assert(b[k] == bp[k]);
                }
            } else {
                assert(b[bp.len() as int] == list[j]);
            }
        }
    }
}

proof fn lemma_sched_filter_members(ms: Seq<RawScheduledMeeting>, special: bool)
    ensures
        forall|i: int| 0 <= i < sched_filter(ms, special).len() ==> ms.contains(#[trigger] sched_filter(ms, special)[i])
            && sched_kept(sched_filter(ms, special)[i]),
        forall|j: int| 0 <= j < ms.len() && sched_kept(#[trigger] ms[j]) && sched_special(ms[j]) == special
            ==> sched_filter(ms, special).contains(ms[j]),
    decreases ms.len(),
{
    if ms.len() > 0 {
        let p = ms.drop_last();
        lemma_sched_filter_members(p, special);
        let fp = sched_filter(p, special);
        let f = sched_filter(ms, special);
        assert forall|i: int| 0 <= i < f.len() implies ms.contains(#[trigger] f[i]) && sched_kept(f[i]) by {
            if i < fp.len() {
                assert(f[i] == fp[i]);
                let k = choose|k: int| 0 <= k < p.len() && p[k] == fp[i];
                assert(ms[k] == p[k]);
            } else {
                assert(f[i] == ms.last());
                assert(ms[ms.len() - 1] == ms.last());
            }
        }
        assert forall|j: int| 0 <= j < ms.len() && sched_kept(#[trigger] ms[j]) && sched_special(ms[j]) == special
            implies f.contains(ms[j]) by {
            if j < p.len() {
                assert(p[j] == ms[j]);
                let k = choose|k: int| 0 <= k < fp.len() && fp[k] == ms[j];
                if sched_kept(ms.last()) && sched_special(ms.last()) == special {
                    assert(f[k] == fp[k]);
                }
            } else {
                assert(f[fp.len() as int] == ms[j]);
            }
        }
    }
}

proof fn lemma_sched_names_has(g: Seq<RawScheduledMeeting>)
    ensures
        forall|j: int, x: Seq<char>|
            0 <= j < g.len() && spec_instructor_names(#[trigger] g[j].person_full_name@).contains(x) ==> #[trigger] sched_names(g).contains(x),
        forall|x: Seq<char>| #[trigger] sched_names(g).contains(x) ==> exists|j: int|
            0 <= j < g.len() && spec_instructor_names(#[trigger] g[j].person_full_name@).contains(x),
    decreases g.len(),
{
    if g.len() > 0 {
        let p = g.drop_last();
        lemma_sched_names_has(p);
        let np = sched_names(p);
        let nl = spec_instructor_names(g.last().person_full_name@);
        assert(sched_names(g) == np + nl);
        assert forall|j: int, x: Seq<char>|
            0 <= j < g.len() && spec_instructor_names(#[trigger] g[j].person_full_name@).contains(x) implies #[trigger] sched_names(g).contains(x) by {
            if j < p.len() {
                assert(p[j] == g[j]);
                assert(np.contains(x));
                let k = choose|k: int| 0 <= k < np.len() && np[k] == x;
                assert((np + nl)[k] == x);
            } else {
                let k = choose|k: int| 0 <= k < nl.len() && nl[k] == x;
                assert((np + nl)[np.len() + k] == x);
            }
        }
        assert forall|x: Seq<char>| #[trigger] sched_names(g).contains(x) implies exists|j: int|
            0 <= j < g.len() && spec_instructor_names(#[trigger] g[j].person_full_name@).contains(x) by {
            let k = choose|k: int| 0 <= k < (np + nl).len() && (np + nl)[k] == x;
            if k < np.len() {
                assert(np[k] == x);
                assert(np.contains(x));
                let j = choose|j: int| 0 <= j < p.len() && spec_instructor_names(#[trigger] p[j].person_full_name@).contains(x);
                assert(g[j] == p[j]);
            } else {
                assert(nl[k - np.len()] == x);
                assert(g[g.len() - 1] == g.last());
            }
        }
    }
}

/// The section at `i` of a course group's sections: the course `t`, its
/// instructors all those of the meetings of `list` with that title.
pub open spec fn group_section_is(s: ScheduledSectionView, list: Seq<RawScheduledMeeting>, t: Seq<char>) -> bool {
    s.course_title == t && s.all_instructors == sorted_unique(sched_names(by_title(list, t)))
}

proof fn lemma_groups_sections_titles(list: Seq<RawScheduledMeeting>, ts: Seq<Seq<char>>, special: bool)
    requires
        forall|i: int| 0 <= i < ts.len() ==> list.map_values(|m: RawScheduledMeeting| title_key(m)).contains(#[trigger] ts[i]),
    ensures
        groups_sections(list, ts, special) matches Outcome::Done(v) ==> v.len() == ts.len() && forall|i: int|
            0 <= i < v.len() ==> group_section_is(#[trigger] v[i], list, ts[i]),
    decreases ts.len(),
{
    if ts.len() > 0 {
        let pt = ts.drop_last();
        let t = ts.last();
        assert forall|i: int| 0 <= i < pt.len() implies list.map_values(|m: RawScheduledMeeting| title_key(m)).contains(
            #[trigger] pt[i],
        ) by {
            assert(pt[i] == ts[i]);
        }
        lemma_groups_sections_titles(list, pt, special);
        let g = by_title(list, t);
        assert(list.map_values(|m: RawScheduledMeeting| title_key(m)).contains(ts[ts.len() - 1]));
        lemma_by_title_nonempty(list, t);
        lemma_by_title_members(list, t);
        lemma_first_where_in(g, counts_pred());
        if let Outcome::Done(v) = groups_sections(list, pt, special) {
            let o = if special {
                special_sched_section(g)
            } else {
                base_section(g)
            };
            if let Outcome::Done(w) = o {
                assert(w.len() == 1);
                assert(group_section_is(w[0], list, t)) by {
                    if special {
                        assert(title_key(g[0]) == t);
                    } else {
                        let d = first_where(g, counts_pred())->Some_0;
                        let j = choose|j: int| 0 <= j < g.len() && g[j] == d;
                        assert(title_key(g[j]) == t);
                    }
                }
                let x = v + w;
                assert forall|i: int| 0 <= i < x.len() implies group_section_is(#[trigger] x[i], list, ts[i]) by {
                    if i < v.len() {
                        assert(x[i] == v[i]);
                        assert(pt[i] == ts[i]);
                    } else {
                        assert(x[i] == w[0]);
                    }
                }
            }
        }
    }
}

} // verus!

verus! {

proof fn lemma_titles_from(list: Seq<RawScheduledMeeting>)
    ensures
        forall|i: int| 0 <= i < titles(list).len() ==> list.map_values(|m: RawScheduledMeeting| title_key(m)).contains(
            #[trigger] titles(list)[i],
        ),
{
    let keys = list.map_values(|m: RawScheduledMeeting| title_key(m));
    assert forall|i: int| 0 <= i < titles(list).len() implies keys.contains(#[trigger] titles(list)[i]) by {
        assert(distinct(keys).contains(titles(list)[i]));
        lemma_distinct_contains(keys, titles(list)[i]);
    }
}

/// The instructors of the sections of the groups of `list`, read from the
/// groups' meetings: complete and sound with respect to `list`.
pub open spec fn instructors_follow(v: Seq<ScheduledSectionView>, list: Seq<RawScheduledMeeting>) -> bool {
    &&& forall|i: int| 0 <= i < v.len() ==> strictly_sorted(#[trigger] v[i].all_instructors)
    &&& forall|q: int, x: Seq<char>|
        0 <= q < list.len() && #[trigger] spec_instructor_names(list[q].person_full_name@).contains(x) ==> exists|i: int|
            0 <= i < v.len() && (#[trigger] v[i]).course_title == title_key(list[q]) && v[i].all_instructors.contains(x)
    &&& forall|i: int, x: Seq<char>|
        0 <= i < v.len() && #[trigger] v[i].all_instructors.contains(x) ==> exists|q: int|
            0 <= q < list.len() && title_key(#[trigger] list[q]) == v[i].course_title && spec_instructor_names(
                list[q].person_full_name@,
            ).contains(x)
}

proof fn lemma_groups_instructors(list: Seq<RawScheduledMeeting>, special: bool)
    ensures
        groups_sections(list, titles(list), special) matches Outcome::Done(v) ==> instructors_follow(v, list),
{
    let ts = titles(list);
    let keys = list.map_values(|m: RawScheduledMeeting| title_key(m));
    lemma_titles_from(list);
    lemma_groups_sections_titles(list, ts, special);
    if let Outcome::Done(v) = groups_sections(list, ts, special) {
        assert forall|i: int| 0 <= i < v.len() implies strictly_sorted(#[trigger] v[i].all_instructors) by {
            assert(group_section_is(v[i], list, ts[i]));
            lemma_sorted_unique_contains(sched_names(by_title(list, ts[i])));
        }
        assert forall|q: int, x: Seq<char>|
            0 <= q < list.len() && #[trigger] spec_instructor_names(list[q].person_full_name@).contains(x) implies exists|i: int|
            0 <= i < v.len() && (#[trigger] v[i]).course_title == title_key(list[q]) && v[i].all_instructors.contains(x) by {
            let t = title_key(list[q]);
            assert(keys[q] == t);
            lemma_distinct_has(keys, t);
            let i = choose|i: int| 0 <= i < ts.len() && ts[i] == t;
            assert(group_section_is(v[i], list, ts[i]));
            let g = by_title(list, t);
            lemma_by_title_members(list, t);
            assert(g.contains(list[q]));
            let k = choose|k: int| 0 <= k < g.len() && g[k] == list[q];
            lemma_sched_names_has(g);
            assert(spec_instructor_names(g[k].person_full_name@).contains(x));
            assert(sched_names(g).contains(x));
            lemma_sorted_unique_contains(sched_names(g));
            assert(v[i].all_instructors.contains(x));
        }
        assert forall|i: int, x: Seq<char>|
            0 <= i < v.len() && #[trigger] v[i].all_instructors.contains(x) implies exists|q: int|
            0 <= q < list.len() && title_key(#[trigger] list[q]) == v[i].course_title && spec_instructor_names(
                list[q].person_full_name@,
            ).contains(x) by {
            let t = ts[i];
            assert(group_section_is(v[i], list, t));
            let g = by_title(list, t);
            lemma_sorted_unique_contains(sched_names(g));
            assert(sched_names(g).contains(x));
            lemma_sched_names_has(g);
            let k = choose|k: int| 0 <= k < g.len() && spec_instructor_names(#[trigger] g[k].person_full_name@).contains(x);
            lemma_by_title_members(list, t);
            assert(list.contains(g[k]) && title_key(g[k]) == t);
            let q = choose|q: int| 0 <= q < list.len() && list[q] == g[k];
            assert(title_key(list[q]) == v[i].course_title);
        }
    }
}

/// Every instructor of every kept meeting of `ms` is listed by a section of
/// `v` of that meeting's course.
pub open spec fn instructors_complete(v: Seq<ScheduledSectionView>, ms: Seq<RawScheduledMeeting>) -> bool {
    forall|j: int, x: Seq<char>|
        0 <= j < ms.len() && sched_kept(ms[j]) && #[trigger] spec_instructor_names(ms[j].person_full_name@).contains(x)
            ==> exists|i: int| 0 <= i < v.len() && (#[trigger] v[i]).course_title == title_key(ms[j]) && v[i].all_instructors.contains(x)
}

/// Every instructor that a section of `v` lists teaches a kept meeting of
/// `ms` of that section's course.
pub open spec fn instructors_sound(v: Seq<ScheduledSectionView>, ms: Seq<RawScheduledMeeting>) -> bool {
    forall|i: int, x: Seq<char>|
        0 <= i < v.len() && #[trigger] v[i].all_instructors.contains(x) ==> exists|j: int|
            0 <= j < ms.len() && sched_kept(#[trigger] ms[j]) && title_key(ms[j]) == v[i].course_title
                && spec_instructor_names(ms[j].person_full_name@).contains(x)
}

#[verifier::spinoff_prover]
#[verifier::rlimit(40)]
proof fn lemma_complete_part(vb: Seq<ScheduledSectionView>, vs: Seq<ScheduledSectionView>, ms: Seq<RawScheduledMeeting>)
    requires
        instructors_follow(vb, sched_filter(ms, false)),
        instructors_follow(vs, sched_filter(ms, true)),
        forall|j: int| 0 <= j < ms.len() && sched_kept(#[trigger] ms[j]) && sched_special(ms[j]) == false
            ==> sched_filter(ms, false).contains(ms[j]),
        forall|j: int| 0 <= j < ms.len() && sched_kept(#[trigger] ms[j]) && sched_special(ms[j]) == true
            ==> sched_filter(ms, true).contains(ms[j]),
    ensures
        instructors_complete(vb + vs, ms),
{
    let v = vb + vs;
    let b = sched_filter(ms, false);
    let sp = sched_filter(ms, true);
    assert forall|j: int, x: Seq<char>|
        0 <= j < ms.len() && sched_kept(ms[j]) && #[trigger] spec_instructor_names(ms[j].person_full_name@).contains(x)
        implies exists|i: int| 0 <= i < v.len() && (#[trigger] v[i]).course_title == title_key(ms[j]) && v[i].all_instructors.contains(x) by {
        if sched_special(ms[j]) {
            assert(sp.contains(ms[j]));
            let q = choose|q: int| 0 <= q < sp.len() && sp[q] == ms[j];
            assert(spec_instructor_names(sp[q].person_full_name@).contains(x));
            let i = choose|i: int|
                0 <= i < vs.len() && (#[trigger] vs[i]).course_title == title_key(sp[q]) && vs[i].all_instructors.contains(x);
            assert(v[vb.len() + i] == vs[i]);
        } else {
            assert(b.contains(ms[j]));
            let q = choose|q: int| 0 <= q < b.len() && b[q] == ms[j];
            assert(spec_instructor_names(b[q].person_full_name@).contains(x));
            let i = choose|i: int|
                0 <= i < vb.len() && (#[trigger] vb[i]).course_title == title_key(b[q]) && vb[i].all_instructors.contains(x);
            assert(v[i] == vb[i]);
        }
    }
}

#[verifier::spinoff_prover]
#[verifier::rlimit(40)]
proof fn lemma_sound_part(vb: Seq<ScheduledSectionView>, vs: Seq<ScheduledSectionView>, ms: Seq<RawScheduledMeeting>)
    requires
        instructors_follow(vb, sched_filter(ms, false)),
        instructors_follow(vs, sched_filter(ms, true)),
        forall|i: int| 0 <= i < sched_filter(ms, false).len() ==> ms.contains(#[trigger] sched_filter(ms, false)[i])
            && sched_kept(sched_filter(ms, false)[i]),
        forall|i: int| 0 <= i < sched_filter(ms, true).len() ==> ms.contains(#[trigger] sched_filter(ms, true)[i])
            && sched_kept(sched_filter(ms, true)[i]),
    ensures
        instructors_sound(vb + vs, ms),
        forall|i: int| 0 <= i < (vb + vs).len() ==> strictly_sorted(#[trigger] (vb + vs)[i].all_instructors),
{
    let v = vb + vs;
    let b = sched_filter(ms, false);
    let sp = sched_filter(ms, true);
    assert forall|i: int| 0 <= i < v.len() implies strictly_sorted(#[trigger] v[i].all_instructors) by {
        if i < vb.len() {
            assert(v[i] == vb[i]);
        } else {
            assert(v[i] == vs[i - vb.len()]);
        }
    }
    assert forall|i: int, x: Seq<char>| 0 <= i < v.len() && #[trigger] v[i].all_instructors.contains(x) implies exists|j: int|
        0 <= j < ms.len() && sched_kept(#[trigger] ms[j]) && title_key(ms[j]) == v[i].course_title
            && spec_instructor_names(ms[j].person_full_name@).contains(x) by {
        if i < vb.len() {
            assert(v[i] == vb[i]);
            assert(vb[i].all_instructors.contains(x));
            let q = choose|q: int|
                0 <= q < b.len() && title_key(#[trigger] b[q]) == vb[i].course_title && spec_instructor_names(
                    b[q].person_full_name@,
                ).contains(x);
            assert(ms.contains(b[q]) && sched_kept(b[q]));
            let j = choose|j: int| 0 <= j < ms.len() && ms[j] == b[q];
            assert(sched_kept(ms[j]));
        } else {
            let k = i - vb.len();
            assert(v[i] == vs[k]);
            assert(vs[k].all_instructors.contains(x));
            let q = choose|q: int|
                0 <= q < sp.len() && title_key(#[trigger] sp[q]) == vs[k].course_title && spec_instructor_names(
                    sp[q].person_full_name@,
                ).contains(x);
            assert(ms.contains(sp[q]) && sched_kept(sp[q]));
            let j = choose|j: int| 0 <= j < ms.len() && ms[j] == sp[q];
            assert(sched_kept(ms[j]));
        }
    }
}

/// In a schedule, a section's instructors are those of all the meetings of its
/// course, each once and in order: every instructor of every meeting on the
/// schedule (a lecture, a discussion, an exam) is listed by a section of that
/// meeting's course, and every instructor a section lists teaches one of the
/// course's meetings.
#[verifier::spinoff_prover]
#[verifier::rlimit(40)]
pub proof fn lemma_schedule_instructors(ms: Seq<RawScheduledMeeting>)
    ensures
        spec_schedule(ms) matches Outcome::Done(v) ==> {
            &&& forall|i: int| 0 <= i < v.len() ==> strictly_sorted(#[trigger] v[i].all_instructors)
            &&& instructors_complete(v, ms)
            &&& instructors_sound(v, ms)
        },
{
    if !sched_code_missing(ms) {
        let b = sched_filter(ms, false);
        let sp = sched_filter(ms, true);
        lemma_groups_instructors(b, false);
        lemma_groups_instructors(sp, true);
        lemma_sched_filter_members(ms, false);
        lemma_sched_filter_members(ms, true);
        if let Outcome::Done(vb) = groups_sections(b, titles(b), false) {
            if let Outcome::Done(vs) = groups_sections(sp, titles(sp), true) {
                lemma_complete_part(vb, vs, ms);
                lemma_sound_part(vb, vs, ms);
            }
        }
    }
}

} // verus!
