//! The requests that the wrapper sends to WebReg, as data: the addresses, the
//! query and form pairs, the checks on their inputs, and how an answer is read.
use vstd::prelude::*;

use crate::num::{int_decimal, nat_digits, zero_pad};
use crate::text::{copy_string, upper_text, str_chars, string_from_chars, trim};
use crate::raw_types::{
    RawDepartmentElement, RawSubjectElement, RawTermListItem, RawWebRegSearchResultItem,
};
use crate::types::{
    CourseSection, CourseSectionView, ScheduledSection, ScheduledSectionView, SectionIdNotFoundContext,
    Term, WrapperError, schedule_view, sections_view, strs_view,
};
use crate::wrapper::input_types::{
    grade_code, opt_view, DayOfWeek, SearchType, EnrollWaitAdd, EventAdd, ExplicitAddType, GradeOption, PlanAdd,
};
use crate::ww_parser::{first_where, lemma_first_where_found};
use crate::ww_parser::{pairs_view, push_pair};

verus! {

// ---------------------------------------------------------------------------
// Reading answers
// ---------------------------------------------------------------------------

/// The text that WebReg sends when the term is not registered to the session.
pub const VERIFY_FAIL_ERR: &'static str = "[{\"VERIFY\":\"FAIL\"}]";

/// `pattern` occurs in `s` at position `i`.
pub open spec fn occurs_at(s: Seq<char>, pattern: Seq<char>, i: int) -> bool {
    0 <= i && i + pattern.len() <= s.len() && s.subrange(i, i + pattern.len()) == pattern
}

/// `pattern` occurs in `s`, as `str::contains` tests it.
pub open spec fn contains_text(s: Seq<char>, pattern: Seq<char>) -> bool {
    exists|i: int| occurs_at(s, pattern, i)
}

/// Whether `pattern` occurs in `s`.
pub fn chars_contain(s: &[char], pattern: &[char]) -> (r: bool)
    ensures
        r == contains_text(s@, pattern@),
{
    let mut i: usize = 0;
    while pattern.len() <= s.len() - i
        invariant
            i <= s@.len(),
            forall|k: int| 0 <= k < i ==> !occurs_at(s@, pattern@, k),
        decreases s@.len() - i,
    {
        let n: usize = s.len();
        let mut j: usize = 0;
        let mut same = true;
        while j < pattern.len()
            invariant
                n == s@.len(),
                i + pattern@.len() <= n,
                j <= pattern@.len(),
                same == (forall|q: int| 0 <= q < j ==> s@[i + q] == pattern@[q]),
            decreases pattern@.len() - j,
        {
            if s[i + j] != pattern[j] {
                same = false;
            }
            j += 1;
        }
        if same {
            assert(s@.subrange(i as int, i + pattern@.len()) =~= pattern@);
            assert(occurs_at(s@, pattern@, i as int));
            return true;
        }
        assert(!occurs_at(s@, pattern@, i as int)) by {
            let q = choose|q: int| 0 <= q < pattern@.len() && s@[i + q] != pattern@[q];
            assert(s@.subrange(i as int, i + pattern@.len())[q] == s@[i + q]);
        }
        i += 1;
    }
    assert forall|k: int| !occurs_at(s@, pattern@, k) by {
        if 0 <= k && k + pattern@.len() <= s@.len() {
            assert(k < i);
        }
    }
    false
}

/// The status codes of a successful answer: `200` through `299`.
pub open spec fn is_success(code: u16) -> bool {
    200 <= code <= 299
}

/// Checks the status code of an answer: a code that is not a success is
/// reported with the answer's text, if any.
pub fn check_status(code: u16, text: Option<String>) -> (r: crate::types::Result<()>)
    ensures
        is_success(code) ==> r is Ok,
        !is_success(code) ==> (r matches Err(WrapperError::BadStatusCode(c, t)) && c == code && t == text),
{
    if 200 <= code && code <= 299 {
        Ok(())
    } else {
        Err(WrapperError::BadStatusCode(code, text))
    }
}

/// The message of the error that a session whose term is not registered gets.
pub open spec fn verify_fail_message() -> Seq<char> {
    "Verification error: register your term using the `associate_term` function."@
}

/// Checks the text of a successful answer: WebReg's verification failure
/// becomes an error, any other text is handed back.
pub fn check_verification(text: String) -> (r: crate::types::Result<String>)
    ensures
        contains_text(text@, VERIFY_FAIL_ERR@) ==> (r matches Err(WrapperError::WebRegError(m))
            && m@ == verify_fail_message()),
        !contains_text(text@, VERIFY_FAIL_ERR@) ==> (r matches Ok(t) && t@ == text@),
{
    let t = str_chars(text.as_str());
    let p = str_chars(VERIFY_FAIL_ERR);
    if chars_contain(t.as_slice(), p.as_slice()) {
        Err(
            WrapperError::WebRegError(
                copy_string("Verification error: register your term using the `associate_term` function."),
            ),
        )
    } else {
        Ok(text)
    }
}

/// What `serde_json::from_str::<serde_json::Value>(text)` gives, read at the
/// keys `first` and `second`: `None` when `text` is not JSON, else each key's
/// value when it is a string.
pub uninterp spec fn spec_json_str_fields(text: Seq<char>, first: Seq<char>, second: Seq<char>) -> Option<(Option<Seq<char>>, Option<Seq<char>>)>;

/// The characters of an optional string.
pub open spec fn opt_chars(s: Option<String>) -> Option<Seq<char>> {
    match s {
        Some(x) => Some(x@),
        None => None,
    }
}

/// `serde_json::from_str` into a `serde_json::Value`, then the string values
/// at two keys (`Value::index` and `Value::as_str`). Its result is named
/// `spec_json_str_fields`; JSON's grammar is not stated here.
#[verifier::external_body]
fn json_str_fields(text: &str, first: &str, second: &str) -> (r: core::result::Result<(Option<String>, Option<String>), serde_json::Error>)
    ensures
        r matches Ok(p) ==> spec_json_str_fields(text@, first@, second@) == Some((opt_chars(p.0), opt_chars(p.1))),
        r is Err ==> spec_json_str_fields(text@, first@, second@) is None,
{
    match serde_json::from_str::<serde_json::Value>(text) {
        Ok(v) => Ok((v[first].as_str().map(String::from), v[second].as_str().map(String::from))),
        Err(e) => Err(e),
    }
}

/// `s` without what stands between `<` and `>` (the markers included), read
/// left to right from the state `in_tag`.
pub open spec fn strip_tags_from(s: Seq<char>, in_tag: bool) -> Seq<char>
    decreases s.len(),
{
    if s.len() == 0 {
        Seq::empty()
    } else if s[0] == '<' {
        strip_tags_from(s.drop_first(), true)
    } else if s[0] == '>' {
        strip_tags_from(s.drop_first(), false)
    } else if in_tag {
        strip_tags_from(s.drop_first(), true)
    } else {
        seq![s[0]] + strip_tags_from(s.drop_first(), false)
    }
}

/// `s` without its HTML tags.
pub open spec fn strip_tags(s: Seq<char>) -> Seq<char> {
    strip_tags_from(s, false)
}

/// Takes the HTML tags out of `s`.
pub fn strip_tags_chars(s: &[char]) -> (r: Vec<char>)
    ensures
        r@ == strip_tags(s@),
{
    let mut out: Vec<char> = Vec::new();
    let mut in_tag = false;
    let mut i: usize = 0;
    assert(s@.skip(0) =~= s@);
    assert(out@ + strip_tags_from(s@, false) =~= strip_tags_from(s@, false));
    while i < s.len()
        invariant
            i <= s@.len(),
            out@ + strip_tags_from(s@.skip(i as int), in_tag) == strip_tags(s@),
        decreases s@.len() - i,
    {
        let c = s[i];
        let ghost rest = s@.skip(i as int);
        assert(rest.drop_first() =~= s@.skip(i + 1));
        assert(rest[0] == c);
        if c == '<' {
            in_tag = true;
        } else if c == '>' {
            in_tag = false;
        } else if !in_tag {
            assert(out@.push(c) + strip_tags_from(s@.skip(i + 1), false) =~= out@ + (seq![c]
                + strip_tags_from(rest.drop_first(), false)));
            out.push(c);
        }
        i += 1;
    }
    assert(s@.skip(i as int) =~= Seq::<char>::empty());
    assert(out@ + Seq::<char>::empty() =~= out@);
    out
}

/// The value of an optional text, or nothing.
pub open spec fn or_empty(s: Option<Seq<char>>) -> Seq<char> {
    match s {
        Some(x) => x,
        None => Seq::empty(),
    }
}

/// What a request that changes something gets back, from the text of its
/// answer: `true` when the answer's `OPS` is `SUCCESS`; else WebReg's
/// `REASON`, trimmed and without HTML tags, as an error; a text that is not
/// JSON is a serde error.
pub open spec fn post_outcome_ok(text: Seq<char>) -> bool {
    match spec_json_str_fields(text, "OPS"@, "REASON"@) {
        Some((ops, _)) => ops == Some("SUCCESS"@),
        None => false,
    }
}

/// Processes the text of the answer to a request that changes something.
///
/// # Returns
/// Either one of:
/// - `true`, when WebReg reports success,
/// - or the reason WebReg gives, without its HTML tags, as an error.
pub fn process_post_text(text: &str) -> (r: crate::types::Result<bool>)
    ensures
        spec_json_str_fields(text@, "OPS"@, "REASON"@) is None ==> (r matches Err(e) && e is SerdeError),
        post_outcome_ok(text@) ==> r == Ok::<bool, WrapperError>(true),
        spec_json_str_fields(text@, "OPS"@, "REASON"@) matches Some((ops, reason)) ==> (ops != Some(
            "SUCCESS"@,
        ) ==> (r matches Err(WrapperError::WebRegError(m)) && m@ == strip_tags(trim(or_empty(reason))))),
{
    proof {
        reveal_strlit("SUCCESS");
    }
    match json_str_fields(text, "OPS", "REASON") {
        Err(e) => Err(WrapperError::SerdeError(e)),
        Ok((ops, reason)) => {
            let success = match &ops {
                Some(o) => crate::text::str_eq(o.as_str(), "SUCCESS"),
                None => false,
            };
            if success {
                return Ok(true);
            }
            let rs = match &reason {
                Some(x) => crate::text::trimmed(x.as_str()),
                None => Vec::new(),
            };
            proof {
                if reason is None {
                    assert(rs@ =~= trim(Seq::<char>::empty()));
                    assert(crate::text::trim_start(Seq::<char>::empty()) == Seq::<char>::empty());
                    assert(crate::text::trim_end(Seq::<char>::empty()) == Seq::<char>::empty());
                }
            }
            let stripped = strip_tags_chars(rs.as_slice());
            Err(WrapperError::WebRegError(string_from_chars(stripped.as_slice())))
        },
    }
}

} // verus!

verus! {

// ---------------------------------------------------------------------------
// Addresses
// ---------------------------------------------------------------------------

/// The name of the default schedule.
pub const DEFAULT_SCHEDULE_NAME: &'static str = "My Schedule";

pub const ACC_NAME: &'static str = "https://act.ucsd.edu/webreg2/svc/wradapter/get-current-name";
pub const COURSE_DATA: &'static str = "https://act.ucsd.edu/webreg2/svc/wradapter/secure/search-load-group-data?";
pub const CURR_SCHEDULE: &'static str = "https://act.ucsd.edu/webreg2/svc/wradapter/secure/get-class?";
pub const SEND_EMAIL: &'static str = "https://act.ucsd.edu/webreg2/svc/wradapter/secure/send-email";
pub const CHANGE_ENROLL: &'static str = "https://act.ucsd.edu/webreg2/svc/wradapter/secure/change-enroll";
pub const REMOVE_SCHEDULE: &'static str = "https://act.ucsd.edu/webreg2/svc/wradapter/secure/sched-remove";
pub const RENAME_SCHEDULE: &'static str = "https://act.ucsd.edu/webreg2/svc/wradapter/secure/plan-rename";
pub const ALL_SCHEDULE: &'static str = "https://act.ucsd.edu/webreg2/svc/wradapter/secure/sched-get-schednames";
pub const PING_SERVER: &'static str = "https://act.ucsd.edu/webreg2/svc/wradapter/secure/ping-server";
pub const PLAN_ADD: &'static str = "https://act.ucsd.edu/webreg2/svc/wradapter/secure/plan-add";
pub const PLAN_REMOVE: &'static str = "https://act.ucsd.edu/webreg2/svc/wradapter/secure/plan-remove";
pub const PLAN_EDIT: &'static str = "https://act.ucsd.edu/webreg2/svc/wradapter/secure/edit-plan";
pub const PLAN_REMOVE_ALL: &'static str = "https://act.ucsd.edu/webreg2/svc/wradapter/secure/plan-remove-all";
pub const ENROLL_ADD: &'static str = "https://act.ucsd.edu/webreg2/svc/wradapter/secure/add-enroll";
pub const ENROLL_EDIT: &'static str = "https://act.ucsd.edu/webreg2/svc/wradapter/secure/edit-enroll";
pub const ENROLL_DROP: &'static str = "https://act.ucsd.edu/webreg2/svc/wradapter/secure/drop-enroll";
pub const WAITLIST_ADD: &'static str = "https://act.ucsd.edu/webreg2/svc/wradapter/secure/add-wait";
pub const WAITLIST_EDIT: &'static str = "https://act.ucsd.edu/webreg2/svc/wradapter/secure/edit-wait";
pub const WAITLIST_DROP: &'static str = "https://act.ucsd.edu/webreg2/svc/wradapter/secure/drop-wait";
pub const PREREQS_INFO: &'static str = "https://act.ucsd.edu/webreg2/svc/wradapter/secure/get-prerequisites?";
pub const EVENT_ADD: &'static str = "https://act.ucsd.edu/webreg2/svc/wradapter/secure/event-add";
pub const EVENT_EDIT: &'static str = "https://act.ucsd.edu/webreg2/svc/wradapter/secure/event-edit";
pub const EVENT_REMOVE: &'static str = "https://act.ucsd.edu/webreg2/svc/wradapter/secure/event-remove";
pub const EVENT_GET: &'static str = "https://act.ucsd.edu/webreg2/svc/wradapter/secure/event-get?";
pub const STATUS_START: &'static str = "https://act.ucsd.edu/webreg2/svc/wradapter/get-status-start?";
pub const ELIGIBILITY: &'static str = "https://act.ucsd.edu/webreg2/svc/wradapter/check-eligibility?";
pub const SUBJ_LIST: &'static str = "https://act.ucsd.edu/webreg2/svc/wradapter/secure/search-load-subject?";
pub const DEPT_LIST: &'static str = "https://act.ucsd.edu/webreg2/svc/wradapter/secure/search-load-department?";
pub const TERM_LIST: &'static str = "https://act.ucsd.edu/webreg2/svc/wradapter/get-term?";

/// What building the URL `base` with the query pairs `params` returns: the
/// URL, or a URL parse error.
pub open spec fn url_result(
    r: crate::types::Result<String>,
    base: Seq<char>,
    params: Seq<(Seq<char>, Seq<char>)>,
) -> bool {
    match crate::ww_parser::spec_url_with_params(base, params) {
        Some(u) => r matches Ok(x) && x@ == u,
        None => r matches Err(e) && e is UrlParseError,
    }
}

/// The URL `base` with the query pairs `params`.
fn url_of(base: &str, params: Vec<(String, String)>) -> (r: crate::types::Result<String>)
    ensures
        url_result(r, base@, pairs_view(params@)),
{
    match crate::ww_parser::url_with_params(base, &params) {
        Ok(u) => Ok(u),
        Err(e) => Err(WrapperError::UrlParseError(e)),
    }
}

/// The decimal notation of a timestamp.
fn timestamp_string(t: u128) -> (r: String)
    ensures
        r@ == nat_digits(t as nat),
{
    let d = crate::num::u128_digits(t);
    string_from_chars(d.as_slice())
}

/// The query pairs that look up a course: subject, formatted course number,
/// term and timestamp.
pub open spec fn course_query(subject: Seq<char>, course: Seq<char>, term: Seq<char>, timestamp: u128) -> Seq<(Seq<char>, Seq<char>)> {
    seq![
        ("subjcode"@, subject),
        ("crsecode"@, crate::util::formatted_course_num(course)),
        ("termcode"@, term),
        ("_"@, nat_digits(timestamp as nat)),
    ]
}

fn course_query_of(subject: &str, course: &str, term: &str, timestamp: u128) -> (r: Vec<(String, String)>)
    ensures
        pairs_view(r@) == course_query(subject@, course@, term@, timestamp),
{
    let mut p: Vec<(String, String)> = Vec::new();
    push_pair(&mut p, "subjcode", copy_string(subject));
    push_pair(&mut p, "crsecode", crate::util::get_formatted_course_num(course));
    push_pair(&mut p, "termcode", copy_string(term));
    push_pair(&mut p, "_", timestamp_string(timestamp));
    assert(pairs_view(p@) =~= course_query(subject@, course@, term@, timestamp));
    p
}

/// The URL that gets the prerequisites of a course.
pub fn prerequisites_url(subject_code: &str, course_code: &str, term: &str, timestamp: u128) -> (r: crate::types::Result<String>)
    ensures
        url_result(r, PREREQS_INFO@, course_query(subject_code@, course_code@, term@, timestamp)),
{
    url_of(PREREQS_INFO, course_query_of(subject_code, course_code, term, timestamp))
}

/// The URL that gets the sections of a course (both the course information
/// and the enrollment counts come from it).
pub fn course_data_url(subject_code: &str, course_code: &str, term: &str, timestamp: u128) -> (r: crate::types::Result<String>)
    ensures
        url_result(r, COURSE_DATA@, course_query(subject_code@, course_code@, term@, timestamp)),
{
    url_of(COURSE_DATA, course_query_of(subject_code, course_code, term, timestamp))
}

/// The name of a schedule, or the default schedule's.
pub open spec fn schedule_or_default(name: Option<Seq<char>>) -> Seq<char> {
    match name {
        Some(n) => n,
        None => DEFAULT_SCHEDULE_NAME@,
    }
}

/// The characters of an optional text.
pub open spec fn opt_str(s: Option<&str>) -> Option<Seq<char>> {
    match s {
        Some(x) => Some(x@),
        None => None,
    }
}

fn schedule_name_string(name: Option<&str>) -> (r: String)
    ensures
        r@ == schedule_or_default(opt_str(name)),
{
    match name {
        Some(n) => copy_string(n),
        None => copy_string(DEFAULT_SCHEDULE_NAME),
    }
}

/// The query pairs that get a schedule.
pub open spec fn schedule_query(name: Option<Seq<char>>, term: Seq<char>, timestamp: u128) -> Seq<(Seq<char>, Seq<char>)> {
    seq![
        ("schedname"@, schedule_or_default(name)),
        ("final"@, Seq::empty()),
        ("sectnum"@, Seq::empty()),
        ("termcode"@, term),
        ("_"@, nat_digits(timestamp as nat)),
    ]
}

/// The URL that gets the schedule `schedule_name` (the default schedule for `None`).
pub fn schedule_url(schedule_name: Option<&str>, term: &str, timestamp: u128) -> (r: crate::types::Result<String>)
    ensures
        url_result(r, CURR_SCHEDULE@, schedule_query(opt_str(schedule_name), term@, timestamp)),
{
    let mut p: Vec<(String, String)> = Vec::new();
    push_pair(&mut p, "schedname", schedule_name_string(schedule_name));
    push_pair(&mut p, "final", String::new());
    push_pair(&mut p, "sectnum", String::new());
    push_pair(&mut p, "termcode", copy_string(term));
    push_pair(&mut p, "_", timestamp_string(timestamp));
    assert(pairs_view(p@) =~= schedule_query(opt_str(schedule_name), term@, timestamp));
    url_of(CURR_SCHEDULE, p)
}

/// The query pairs of a term and a timestamp.
pub open spec fn term_query(term: Seq<char>, timestamp: u128) -> Seq<(Seq<char>, Seq<char>)> {
    seq![("termcode"@, term), ("_"@, nat_digits(timestamp as nat))]
}

fn term_query_of(term: &str, timestamp: u128) -> (r: Vec<(String, String)>)
    ensures
        pairs_view(r@) == term_query(term@, timestamp),
{
    let mut p: Vec<(String, String)> = Vec::new();
    push_pair(&mut p, "termcode", copy_string(term));
    push_pair(&mut p, "_", timestamp_string(timestamp));
    assert(pairs_view(p@) =~= term_query(term@, timestamp));
    p
}

/// The URL that gets the departments offering courses in a term.
pub fn department_codes_url(term: &str, timestamp: u128) -> (r: crate::types::Result<String>)
    ensures
        url_result(r, DEPT_LIST@, term_query(term@, timestamp)),
{
    url_of(DEPT_LIST, term_query_of(term, timestamp))
}

/// The URL that gets the subjects offering courses in a term.
pub fn subject_codes_url(term: &str, timestamp: u128) -> (r: crate::types::Result<String>)
    ensures
        url_result(r, SUBJ_LIST@, term_query(term@, timestamp)),
{
    url_of(SUBJ_LIST, term_query_of(term, timestamp))
}

/// The query pairs of a term alone.
pub open spec fn term_only(term: Seq<char>) -> Seq<(Seq<char>, Seq<char>)> {
    seq![("termcode"@, term)]
}

fn term_only_of(term: &str) -> (r: Vec<(String, String)>)
    ensures
        pairs_view(r@) == term_only(term@),
{
    let mut p: Vec<(String, String)> = Vec::new();
    push_pair(&mut p, "termcode", copy_string(term));
    assert(pairs_view(p@) =~= term_only(term@));
    p
}

/// The URL that gets the events of a term.
pub fn events_url(term: &str) -> (r: crate::types::Result<String>)
    ensures
        url_result(r, EVENT_GET@, term_only(term@)),
{
    url_of(EVENT_GET, term_only_of(term))
}

/// The URL that gets the names of the schedules of a term.
pub fn schedule_list_url(term: &str) -> (r: crate::types::Result<String>)
    ensures
        url_result(r, ALL_SCHEDULE@, term_only(term@)),
{
    url_of(ALL_SCHEDULE, term_only_of(term))
}

/// The URL that gets all terms.
pub fn all_terms_url(timestamp: u128) -> (r: crate::types::Result<String>)
    ensures
        url_result(r, TERM_LIST@, seq![("_"@, nat_digits(timestamp as nat))]),
{
    let mut p: Vec<(String, String)> = Vec::new();
    push_pair(&mut p, "_", timestamp_string(timestamp));
    assert(pairs_view(p@) =~= seq![("_"@, nat_digits(timestamp as nat))]);
    url_of(TERM_LIST, p)
}

/// The address that checks whether the session is valid.
pub fn ping_url(timestamp: u128) -> (r: String)
    ensures
        r@ == PING_SERVER@ + "?_="@ + nat_digits(timestamp as nat),
{
    let mut v = str_chars(PING_SERVER);
    let q = str_chars("?_=");
    crate::text::extend_chars(&mut v, q.as_slice());
    let d = crate::num::u128_digits(timestamp);
    crate::text::extend_chars(&mut v, d.as_slice());
    string_from_chars(v.as_slice())
}

/// What `serde_json::from_str::<serde_json::Value>(text)` gives, read at the
/// key `key`: the value when it is a boolean; `None` when `text` is not JSON
/// or the value is not a boolean.
pub uninterp spec fn spec_json_bool_field(text: Seq<char>, key: Seq<char>) -> Option<bool>;

/// `serde_json::from_str` into a `serde_json::Value`, then the boolean value
/// at a key (`Value::index` and `Value::as_bool`). Its result is named
/// `spec_json_bool_field`; JSON's grammar is not stated here.
#[verifier::external_body]
fn json_bool_field(text: &str, key: &str) -> (r: Option<bool>)
    ensures
        r == spec_json_bool_field(text@, key@),
{
    match serde_json::from_str::<serde_json::Value>(text) {
        Ok(v) => v[key].as_bool(),
        Err(_) => None,
    }
}

/// Whether the answer to a ping says that the session is valid: its
/// `SESSION_OK` is `true`.
pub fn session_ok(text: &str) -> (r: bool)
    ensures
        r == (spec_json_bool_field(text@, "SESSION_OK"@) == Some(true)),
{
    match json_bool_field(text, "SESSION_OK") {
        Some(b) => b,
        None => false,
    }
}

} // verus!

verus! {

// ---------------------------------------------------------------------------
// Forms of requests that change something
// ---------------------------------------------------------------------------

/// A grading option, or letter grading.
pub open spec fn grade_or_letter(g: Option<GradeOption>) -> GradeOption {
    match g {
        Some(x) => x,
        None => GradeOption::L,
    }
}

fn grade_string(g: Option<GradeOption>) -> (r: String)
    ensures
        r@ == grade_code(grade_or_letter(g)),
{
    let x = match g {
        Some(x) => x,
        None => GradeOption::L,
    };
    copy_string(x.as_str())
}

/// The decimal notation of a unit count.
fn units_string(u: u8) -> (r: String)
    ensures
        r@ == nat_digits(u as nat),
{
    let d = crate::num::u128_digits(u as u128);
    string_from_chars(d.as_slice())
}

/// The form that plans a course.
pub open spec fn plan_add_pairs(p: PlanAdd, term: Seq<char>) -> Seq<(Seq<char>, Seq<char>)> {
    seq![
        ("subjcode"@, p.subject_code@),
        ("crsecode"@, crate::util::formatted_course_num(p.course_code@)),
        ("sectnum"@, p.section_id@),
        ("sectcode"@, p.section_code@),
        ("unit"@, nat_digits(p.unit_count as nat)),
        ("grade"@, grade_code(grade_or_letter(p.grading_option))),
        ("termcode"@, term),
        ("schedname"@, schedule_or_default(opt_view(p.schedule_name))),
    ]
}

/// The form that plans a course (sent to [`PLAN_ADD`]); the grading option
/// defaults to letter grading, the schedule to the default schedule.
pub fn plan_add_form(plan_options: &PlanAdd, term: &str) -> (r: Vec<(String, String)>)
    ensures
        pairs_view(r@) == plan_add_pairs(*plan_options, term@),
{
    let mut p: Vec<(String, String)> = Vec::new();
    push_pair(&mut p, "subjcode", copy_string(plan_options.subject_code.as_str()));
    push_pair(&mut p, "crsecode", crate::util::get_formatted_course_num(plan_options.course_code.as_str()));
    push_pair(&mut p, "sectnum", copy_string(plan_options.section_id.as_str()));
    push_pair(&mut p, "sectcode", copy_string(plan_options.section_code.as_str()));
    push_pair(&mut p, "unit", units_string(plan_options.unit_count));
    push_pair(&mut p, "grade", grade_string(plan_options.grading_option));
    push_pair(&mut p, "termcode", copy_string(term));
    let sched = match &plan_options.schedule_name {
        Some(n) => copy_string(n.as_str()),
        None => copy_string(DEFAULT_SCHEDULE_NAME),
    };
    push_pair(&mut p, "schedname", sched);
    assert(pairs_view(p@) =~= plan_add_pairs(*plan_options, term@));
    p
}

/// The form that checks that a course can be planned.
pub open spec fn validate_plan_pairs(p: PlanAdd, term: Seq<char>) -> Seq<(Seq<char>, Seq<char>)> {
    seq![
        ("section"@, p.section_id@),
        ("subjcode"@, p.subject_code@),
        ("crsecode"@, crate::util::formatted_course_num(p.course_code@)),
        ("termcode"@, term),
    ]
}

/// The form that checks that a course can be planned (sent to [`PLAN_EDIT`]).
pub fn validate_plan_form(plan_options: &PlanAdd, term: &str) -> (r: Vec<(String, String)>)
    ensures
        pairs_view(r@) == validate_plan_pairs(*plan_options, term@),
{
    let mut p: Vec<(String, String)> = Vec::new();
    push_pair(&mut p, "section", copy_string(plan_options.section_id.as_str()));
    push_pair(&mut p, "subjcode", copy_string(plan_options.subject_code.as_str()));
    push_pair(&mut p, "crsecode", crate::util::get_formatted_course_num(plan_options.course_code.as_str()));
    push_pair(&mut p, "termcode", copy_string(term));
    assert(pairs_view(p@) =~= validate_plan_pairs(*plan_options, term@));
    p
}

/// The form that unplans a section from a schedule.
pub open spec fn remove_plan_pairs(section_id: Seq<char>, schedule: Option<Seq<char>>, term: Seq<char>) -> Seq<(Seq<char>, Seq<char>)> {
    seq![("sectnum"@, section_id), ("termcode"@, term), ("schedname"@, schedule_or_default(schedule))]
}

/// The form that unplans a section (sent to [`PLAN_REMOVE`]); the schedule
/// defaults to the default schedule.
pub fn remove_plan_form(section_id: &str, schedule_name: Option<&str>, term: &str) -> (r: Vec<(String, String)>)
    ensures
        pairs_view(r@) == remove_plan_pairs(section_id@, opt_str(schedule_name), term@),
{
    let mut p: Vec<(String, String)> = Vec::new();
    push_pair(&mut p, "sectnum", copy_string(section_id));
    push_pair(&mut p, "termcode", copy_string(term));
    push_pair(&mut p, "schedname", schedule_name_string(schedule_name));
    assert(pairs_view(p@) =~= remove_plan_pairs(section_id@, opt_str(schedule_name), term@));
    p
}

/// The form that enrolls in or waitlists a section.
pub open spec fn add_section_pairs(e: EnrollWaitAdd, term: Seq<char>) -> Seq<(Seq<char>, Seq<char>)> {
    seq![
        ("section"@, e.section_id@),
        ("termcode"@, term),
        ("unit"@, match e.unit_count {
            Some(u) => nat_digits(u as nat),
            None => Seq::empty(),
        }),
        ("grade"@, grade_code(grade_or_letter(e.grading_option))),
        ("crsecode"@, Seq::empty()),
        ("subjcode"@, Seq::empty()),
    ]
}

/// The form that enrolls in or waitlists a section (sent to the address that
/// [`add_section_url`] gives); the grading option defaults to letter grading.
pub fn add_section_form(enroll_options: &EnrollWaitAdd, term: &str) -> (r: Vec<(String, String)>)
    ensures
        pairs_view(r@) == add_section_pairs(*enroll_options, term@),
{
    let mut p: Vec<(String, String)> = Vec::new();
    push_pair(&mut p, "section", copy_string(enroll_options.section_id.as_str()));
    push_pair(&mut p, "termcode", copy_string(term));
    let u = match enroll_options.unit_count {
        Some(u) => units_string(u),
        None => String::new(),
    };
    push_pair(&mut p, "unit", u);
    push_pair(&mut p, "grade", grade_string(enroll_options.grading_option));
    push_pair(&mut p, "crsecode", String::new());
    push_pair(&mut p, "subjcode", String::new());
    assert(pairs_view(p@) =~= add_section_pairs(*enroll_options, term@));
    p
}

/// The form that checks that a section can be enrolled in or waitlisted.
pub open spec fn validate_section_pairs(section_id: Seq<char>, term: Seq<char>) -> Seq<(Seq<char>, Seq<char>)> {
    seq![("section"@, section_id), ("termcode"@, term), ("subjcode"@, Seq::empty()), ("crsecode"@, Seq::empty())]
}

/// The form that checks that a section can be enrolled in or waitlisted (sent
/// to the address that [`edit_section_url`] gives).
pub fn validate_section_form(section_id: &str, term: &str) -> (r: Vec<(String, String)>)
    ensures
        pairs_view(r@) == validate_section_pairs(section_id@, term@),
{
    let mut p: Vec<(String, String)> = Vec::new();
    push_pair(&mut p, "section", copy_string(section_id));
    push_pair(&mut p, "termcode", copy_string(term));
    push_pair(&mut p, "subjcode", String::new());
    push_pair(&mut p, "crsecode", String::new());
    assert(pairs_view(p@) =~= validate_section_pairs(section_id@, term@));
    p
}

/// The form that takes a section out of every plan.
pub open spec fn remove_all_plan_pairs(section_id: Seq<char>, term: Seq<char>) -> Seq<(Seq<char>, Seq<char>)> {
    seq![("sectnum"@, section_id), ("termcode"@, term)]
}

/// The form that takes a section out of every plan once it is added (sent to
/// [`PLAN_REMOVE_ALL`]).
pub fn remove_all_plan_form(section_id: &str, term: &str) -> (r: Vec<(String, String)>)
    ensures
        pairs_view(r@) == remove_all_plan_pairs(section_id@, term@),
{
    let mut p: Vec<(String, String)> = Vec::new();
    push_pair(&mut p, "sectnum", copy_string(section_id));
    push_pair(&mut p, "termcode", copy_string(term));
    assert(pairs_view(p@) =~= remove_all_plan_pairs(section_id@, term@));
    p
}

/// The form that drops a section.
pub open spec fn drop_section_pairs(section_id: Seq<char>, term: Seq<char>) -> Seq<(Seq<char>, Seq<char>)> {
    seq![("subjcode"@, Seq::empty()), ("crsecode"@, Seq::empty()), ("section"@, section_id), ("termcode"@, term)]
}

/// The form that drops a section (sent to the address that [`drop_section_url`] gives).
pub fn drop_section_form(section_id: &str, term: &str) -> (r: Vec<(String, String)>)
    ensures
        pairs_view(r@) == drop_section_pairs(section_id@, term@),
{
    let mut p: Vec<(String, String)> = Vec::new();
    push_pair(&mut p, "subjcode", String::new());
    push_pair(&mut p, "crsecode", String::new());
    push_pair(&mut p, "section", copy_string(section_id));
    push_pair(&mut p, "termcode", copy_string(term));
    assert(pairs_view(p@) =~= drop_section_pairs(section_id@, term@));
    p
}

/// The address that enrolls in (or waitlists) a section.
pub fn add_section_url(add_type: ExplicitAddType) -> (r: &'static str)
    ensures
        r@ == (match add_type {
            ExplicitAddType::Enroll => ENROLL_ADD@,
            ExplicitAddType::Waitlist => WAITLIST_ADD@,
        }),
{
    match add_type {
        ExplicitAddType::Enroll => ENROLL_ADD,
        ExplicitAddType::Waitlist => WAITLIST_ADD,
    }
}

/// The address that checks an enrollment (or a waitlisting).
pub fn edit_section_url(add_type: ExplicitAddType) -> (r: &'static str)
    ensures
        r@ == (match add_type {
            ExplicitAddType::Enroll => ENROLL_EDIT@,
            ExplicitAddType::Waitlist => WAITLIST_EDIT@,
        }),
{
    match add_type {
        ExplicitAddType::Enroll => ENROLL_EDIT,
        ExplicitAddType::Waitlist => WAITLIST_EDIT,
    }
}

/// The address that drops an enrolled (or waitlisted) section.
pub fn drop_section_url(prev_enroll_status: ExplicitAddType) -> (r: &'static str)
    ensures
        r@ == (match prev_enroll_status {
            ExplicitAddType::Enroll => ENROLL_DROP@,
            ExplicitAddType::Waitlist => WAITLIST_DROP@,
        }),
{
    match prev_enroll_status {
        ExplicitAddType::Enroll => ENROLL_DROP,
        ExplicitAddType::Waitlist => WAITLIST_DROP,
    }
}

/// The add type that a section's enrollment figures call for: enroll when it
/// has seats (see [`CourseSection::has_seats`]), else waitlist.
pub open spec fn add_type_of(s: CourseSectionView) -> ExplicitAddType {
    if s.available_seats > 0 && s.waitlist_ct == 0 {
        ExplicitAddType::Enroll
    } else {
        ExplicitAddType::Waitlist
    }
}

/// A section with the section ID `id`, as a predicate.
pub open spec fn section_id_is(id: Seq<char>) -> spec_fn(CourseSectionView) -> bool {
    |s: CourseSectionView| s.section_id == id
}

/// The error for a section ID that is not found in `ctx`.
pub open spec fn not_found(e: WrapperError, id: Seq<char>, ctx: SectionIdNotFoundContext) -> bool {
    e matches WrapperError::SectionIdNotFound(x, c) && x@ == id && c == ctx
}

/// The course that a search by section ID found: the trimmed subject and
/// course codes of its first result, or, when there is none, the section ID
/// not found in the catalog.
pub fn search_target(section_id: &str, search_res: &Vec<RawWebRegSearchResultItem>) -> (r: crate::types::Result<(String, String)>)
    ensures
        search_res@.len() == 0 ==> (r matches Err(e) && not_found(e, section_id@, SectionIdNotFoundContext::Catalog)),
        search_res@.len() > 0 ==> (r matches Ok(p) && p.0@ == trim(search_res@[0].subj_code@) && p.1@ == trim(
            search_res@[0].course_code@,
        )),
{
    if search_res.len() == 0 {
        return Err(WrapperError::SectionIdNotFound(copy_string(section_id), SectionIdNotFoundContext::Catalog));
    }
    Ok((
        crate::text::trimmed_string(search_res[0].subj_code.as_str()),
        crate::text::trimmed_string(search_res[0].course_code.as_str()),
    ))
}

/// Whether the user can enroll or must waitlist into the section
/// `section_id`, from the enrollment counts of its course: the first section
/// with that ID decides; none is an error.
pub fn add_type_for(section_id: &str, sections: &Vec<CourseSection>) -> (r: crate::types::Result<ExplicitAddType>)
    ensures
        first_where(sections_view(sections@), section_id_is(section_id@)) is None ==> (r matches Err(e) && not_found(
            e,
            section_id@,
            SectionIdNotFoundContext::Catalog,
        )),
        first_where(sections_view(sections@), section_id_is(section_id@)) matches Some(s) ==> r == Ok::<
            ExplicitAddType,
            WrapperError,
        >(add_type_of(s)),
{
    let ghost sv = sections_view(sections@);
    let mut i: usize = 0;
    assert(sv.take(0) =~= Seq::<CourseSectionView>::empty());
    while i < sections.len()
        invariant
            i <= sections@.len(),
            sv == sections_view(sections@),
            first_where(sv.take(i as int), section_id_is(section_id@)) is None,
        decreases sections@.len() - i,
    {
        assert(sv.take(i + 1).drop_last() =~= sv.take(i as int));
        assert(sv.take(i + 1).last() == sections@[i as int]@);
        if crate::text::str_eq(sections[i].section_id.as_str(), section_id) {
            proof {
                lemma_first_where_found(sv, section_id_is(section_id@), i + 1);
            }
            return if sections[i].has_seats() {
                Ok(ExplicitAddType::Enroll)
            } else {
                Ok(ExplicitAddType::Waitlist)
            };
        }
        i += 1;
    }
    assert(sv.take(sv.len() as int) =~= sv);
    Err(WrapperError::SectionIdNotFound(copy_string(section_id), SectionIdNotFoundContext::Catalog))
}

} // verus!

verus! {

/// The error for an input that is not valid, with the input's name and the reason.
pub open spec fn input_error(e: WrapperError, name: Seq<char>, reason: Seq<char>) -> bool {
    e matches WrapperError::InputError(n, m) && n@ == name && m@ == reason
}

/// The form that renames a schedule (sent to [`RENAME_SCHEDULE`]); the default
/// schedule cannot be renamed.
pub fn rename_schedule_form(old_name: &str, new_name: &str, term: &str) -> (r: crate::types::Result<Vec<(String, String)>>)
    ensures
        old_name@ == DEFAULT_SCHEDULE_NAME@ ==> (r matches Err(e) && input_error(
            e,
            "old_name"@,
            "You cannot rename the default schedule"@,
        )),
        old_name@ != DEFAULT_SCHEDULE_NAME@ ==> (r matches Ok(p) && pairs_view(p@) == seq![
            ("termcode"@, term@),
            ("oldschedname"@, old_name@),
            ("newschedname"@, new_name@),
        ]),
{
    if crate::text::str_eq(old_name, DEFAULT_SCHEDULE_NAME) {
        return Err(WrapperError::InputError("old_name", "You cannot rename the default schedule"));
    }
    let mut p: Vec<(String, String)> = Vec::new();
    push_pair(&mut p, "termcode", copy_string(term));
    push_pair(&mut p, "oldschedname", copy_string(old_name));
    push_pair(&mut p, "newschedname", copy_string(new_name));
    assert(pairs_view(p@) =~= seq![("termcode"@, term@), ("oldschedname"@, old_name@), ("newschedname"@, new_name@)]);
    Ok(p)
}

/// The form that removes a schedule (sent to [`REMOVE_SCHEDULE`]); the default
/// schedule cannot be removed.
pub fn remove_schedule_form(schedule_name: &str, term: &str) -> (r: crate::types::Result<Vec<(String, String)>>)
    ensures
        schedule_name@ == DEFAULT_SCHEDULE_NAME@ ==> (r matches Err(e) && input_error(
            e,
            "schedule_name"@,
            "You cannot remove the default schedule."@,
        )),
        schedule_name@ != DEFAULT_SCHEDULE_NAME@ ==> (r matches Ok(p) && pairs_view(p@) == seq![
            ("termcode"@, term@),
            ("schedname"@, schedule_name@),
        ]),
{
    if crate::text::str_eq(schedule_name, DEFAULT_SCHEDULE_NAME) {
        return Err(WrapperError::InputError("schedule_name", "You cannot remove the default schedule."));
    }
    let mut p: Vec<(String, String)> = Vec::new();
    push_pair(&mut p, "termcode", copy_string(term));
    push_pair(&mut p, "schedname", copy_string(schedule_name));
    assert(pairs_view(p@) =~= seq![("termcode"@, term@), ("schedname"@, schedule_name@)]);
    Ok(p)
}

/// The form that removes an event (sent to [`EVENT_REMOVE`]).
pub fn remove_event_form(event_timestamp: &str, term: &str) -> (r: Vec<(String, String)>)
    ensures
        pairs_view(r@) == seq![("aetimestamp"@, event_timestamp@), ("termcode"@, term@)],
{
    let mut p: Vec<(String, String)> = Vec::new();
    push_pair(&mut p, "aetimestamp", copy_string(event_timestamp));
    push_pair(&mut p, "termcode", copy_string(term));
    assert(pairs_view(p@) =~= seq![("aetimestamp"@, event_timestamp@), ("termcode"@, term@)]);
    p
}

/// The form that sends an email to oneself (sent to [`SEND_EMAIL`]).
pub fn send_email_form(email_content: &str, term: &str) -> (r: Vec<(String, String)>)
    ensures
        pairs_view(r@) == seq![("actionevent"@, email_content@), ("termcode"@, term@)],
{
    let mut p: Vec<(String, String)> = Vec::new();
    push_pair(&mut p, "actionevent", copy_string(email_content));
    push_pair(&mut p, "termcode", copy_string(term));
    assert(pairs_view(p@) =~= seq![("actionevent"@, email_content@), ("termcode"@, term@)]);
    p
}

/// What sending an email gets back, from the text of the answer: it was sent
/// when the text holds `"YES"`; else the text is WebReg's error.
pub fn email_result(text: String) -> (r: crate::types::Result<()>)
    ensures
        contains_text(text@, "\"YES\""@) ==> r is Ok,
        !contains_text(text@, "\"YES\""@) ==> (r matches Err(WrapperError::WebRegError(m)) && m@ == text@),
{
    let t = str_chars(text.as_str());
    let y = str_chars("\"YES\"");
    if chars_contain(t.as_slice(), y.as_slice()) {
        Ok(())
    } else {
        Err(WrapperError::WebRegError(text))
    }
}

// ---------------------------------------------------------------------------
// Events
// ---------------------------------------------------------------------------

/// A time as the number `HHMM`.
pub open spec fn event_time(hr: i16, min: i16) -> int {
    hr * 100 + min
}

/// The times of an event can be computed as `HHMM` numbers in an `i16`.
pub open spec fn event_times_fit(e: EventAdd) -> bool {
    &&& i16::MIN <= e.start_hr * 100 <= i16::MAX
    &&& i16::MIN <= event_time(e.start_hr, e.start_min) <= i16::MAX
    &&& i16::MIN <= e.end_hr * 100 <= i16::MAX
    &&& i16::MIN <= event_time(e.end_hr, e.end_min) <= i16::MAX
}

/// Whether the times of an event can be computed as `HHMM` numbers in an
/// `i16`, which [`event_form`] needs.
pub fn event_times_ok(e: &EventAdd) -> (r: bool)
    ensures
        r == event_times_fit(*e),
{
    let lo: i32 = -32768;
    let hi: i32 = 32767;
    let sh: i32 = (e.start_hr as i32) * 100;
    let st: i32 = sh + (e.start_min as i32);
    let eh: i32 = (e.end_hr as i32) * 100;
    let et: i32 = eh + (e.end_min as i32);
    lo <= sh && sh <= hi && lo <= st && st <= hi && lo <= eh && eh <= hi && lo <= et && et <= hi
}

/// Why an event cannot be added, as the input's name and the reason, checked
/// in this order: the start must come before the end, start between 7am and
/// 10pm (10pm sharp at the latest), and the event needs a day.
pub open spec fn event_problem(e: EventAdd) -> Option<(Seq<char>, Seq<char>)> {
    if event_time(e.start_hr, e.start_min) >= event_time(e.end_hr, e.end_min) {
        Some(("time"@, "Start time must be less than end time."@))
    } else if e.start_hr < 7 || e.start_hr > 22 {
        Some(("event_info.start_hr"@, "Start hour must be between 7 and 22 (7am and 10pm)"@))
    } else if e.start_hr == 22 && e.start_min != 0 {
        Some(("event_info.start"@, "You cannot exceed 10pm."@))
    } else if e.event_days@.len() == 0 {
        Some(("event_info.event_days"@, "Must specify one day."@))
    } else {
        None
    }
}

/// The day at position `i` of a week that starts on Monday.
pub open spec fn week_day(i: int) -> DayOfWeek {
    if i == 0 {
        DayOfWeek::Monday
    } else if i == 1 {
        DayOfWeek::Tuesday
    } else if i == 2 {
        DayOfWeek::Wednesday
    } else if i == 3 {
        DayOfWeek::Thursday
    } else if i == 4 {
        DayOfWeek::Friday
    } else if i == 5 {
        DayOfWeek::Saturday
    } else {
        DayOfWeek::Sunday
    }
}

/// The days of an event as seven digits from Monday to Sunday: `1` for a day
/// of the event, else `0`.
pub open spec fn day_flags(days: Seq<DayOfWeek>) -> Seq<char> {
    Seq::new(7, |i: int| if days.contains(week_day(i)) { '1' } else { '0' })
}

/// The form that adds an event, or edits the event with the given timestamp.
pub open spec fn event_pairs(e: EventAdd, term: Seq<char>, timestamp: Option<Seq<char>>) -> Seq<(Seq<char>, Seq<char>)> {
    let base = seq![
        ("termcode"@, term),
        ("aename"@, e.event_name@),
        ("aestarttime"@, zero_pad(int_decimal(event_time(e.start_hr, e.start_min)), 4)),
        ("aeendtime"@, zero_pad(int_decimal(event_time(e.end_hr, e.end_min)), 4)),
        ("aelocation"@, or_empty(opt_view(e.location))),
        ("aedays"@, day_flags(e.event_days@)),
    ];
    match timestamp {
        Some(t) => base.push(("aetimestamp"@, t)),
        None => base,
    }
}

/// The position of a day in a week that starts on Monday.
fn day_index(d: DayOfWeek) -> (r: usize)
    ensures
        r < 7,
        week_day(r as int) == d,
        forall|i: int| 0 <= i < 7 && week_day(i) == d ==> i == r,
{
    match d {
        DayOfWeek::Monday => 0,
        DayOfWeek::Tuesday => 1,
        DayOfWeek::Wednesday => 2,
        DayOfWeek::Thursday => 3,
        DayOfWeek::Friday => 4,
        DayOfWeek::Saturday => 5,
        DayOfWeek::Sunday => 6,
    }
}

/// The days of an event as seven digits.
fn day_flags_of(days: &Vec<DayOfWeek>) -> (r: String)
    ensures
        r@ == day_flags(days@),
{
    let mut flags: Vec<bool> = vec![false, false, false, false, false, false, false];
    let mut j: usize = 0;
    while j < days.len()
        invariant
            j <= days@.len(),
            flags@.len() == 7,
            forall|i: int| 0 <= i < 7 ==> #[trigger] flags@[i] == days@.take(j as int).contains(week_day(i)),
        decreases days@.len() - j,
    {
        let k = day_index(days[j]);
        assert forall|i: int| 0 <= i < 7 implies #[trigger] flags@.update(k as int, true)[i] == days@.take(
            j + 1,
        ).contains(week_day(i)) by {
            assert(days@.take(j + 1) =~= days@.take(j as int).push(days@[j as int]));
            if days@.take(j + 1).contains(week_day(i)) && !days@.take(j as int).contains(week_day(i)) {
                let q = choose|q: int| 0 <= q < j + 1 && #[trigger] days@.take(j + 1)[q] == week_day(i);
                assert(q == j);
            }
            if i == k {
                assert(days@.take(j + 1)[j as int] == week_day(i));
            }
        }
        flags.set(k, true);
        j += 1;
    }
    assert(days@.take(days@.len() as int) =~= days@);
    let mut out: Vec<char> = Vec::new();
    let mut i: usize = 0;
    while i < 7
        invariant
            i <= 7,
            flags@.len() == 7,
            forall|q: int| 0 <= q < 7 ==> #[trigger] flags@[q] == days@.contains(week_day(q)),
            out@ == day_flags(days@).take(i as int),
        decreases 7 - i,
    {
        out.push(if flags[i] { '1' } else { '0' });
        assert(out@ =~= day_flags(days@).take(i + 1));
        i += 1;
    }
    assert(day_flags(days@).take(7) =~= day_flags(days@));
    string_from_chars(out.as_slice())
}

/// A time as `HHMM`, padded with zeros to four characters.
fn event_time_string(hr: i16, min: i16) -> (r: String)
    requires
        i16::MIN <= hr * 100 <= i16::MAX,
        i16::MIN <= event_time(hr, min) <= i16::MAX,
    ensures
        r@ == zero_pad(int_decimal(event_time(hr, min)), 4),
{
    let t: i16 = hr * 100 + min;
    let d = crate::num::i64_decimal(t as i64);
    let p = crate::num::zero_pad_chars(d.as_slice(), 4);
    string_from_chars(p.as_slice())
}

/// Checks an event and builds the form that adds it (sent to [`EVENT_ADD`]),
/// or that edits the event with the timestamp `event_timestamp` (sent to
/// [`EVENT_EDIT`]).
///
/// # Returns
/// The form, or the input error that the first problem with the event gives.
pub fn event_form(event_info: &EventAdd, term: &str, event_timestamp: Option<&str>) -> (r: crate::types::Result<Vec<(String, String)>>)
    requires
        event_times_fit(*event_info),
    ensures
        event_problem(*event_info) matches Some((name, reason)) ==> (r matches Err(e) && input_error(e, name, reason)),
        event_problem(*event_info) is None ==> (r matches Ok(p) && pairs_view(p@) == event_pairs(
            *event_info,
            term@,
            opt_str(event_timestamp),
        )),
{
    let start_full: i16 = event_info.start_hr * 100 + event_info.start_min;
    let end_full: i16 = event_info.end_hr * 100 + event_info.end_min;
    if start_full >= end_full {
        return Err(WrapperError::InputError("time", "Start time must be less than end time."));
    }
    if event_info.start_hr < 7 || event_info.start_hr > 22 {
        return Err(
            WrapperError::InputError("event_info.start_hr", "Start hour must be between 7 and 22 (7am and 10pm)"),
        );
    }
    if event_info.start_hr == 22 && event_info.start_min != 0 {
        return Err(WrapperError::InputError("event_info.start", "You cannot exceed 10pm."));
    }
    if event_info.event_days.len() == 0 {
        return Err(WrapperError::InputError("event_info.event_days", "Must specify one day."));
    }
    let mut p: Vec<(String, String)> = Vec::new();
    push_pair(&mut p, "termcode", copy_string(term));
    push_pair(&mut p, "aename", copy_string(event_info.event_name.as_str()));
    push_pair(&mut p, "aestarttime", event_time_string(event_info.start_hr, event_info.start_min));
    push_pair(&mut p, "aeendtime", event_time_string(event_info.end_hr, event_info.end_min));
    let loc = match &event_info.location {
        Some(l) => copy_string(l.as_str()),
        None => String::new(),
    };
    push_pair(&mut p, "aelocation", loc);
    push_pair(&mut p, "aedays", day_flags_of(&event_info.event_days));
    match event_timestamp {
        Some(t) => {
            push_pair(&mut p, "aetimestamp", copy_string(t));
        },
        None => {},
    }
    assert(pairs_view(p@) =~= event_pairs(*event_info, term@, opt_str(event_timestamp)));
    Ok(p)
}

/// The address that adds an event, or that edits the event with a timestamp.
pub fn event_url(event_timestamp: Option<&str>) -> (r: &'static str)
    ensures
        r@ == (if event_timestamp is Some { EVENT_EDIT@ } else { EVENT_ADD@ }),
{
    match event_timestamp {
        Some(_) => EVENT_EDIT,
        None => EVENT_ADD,
    }
}

} // verus!

verus! {

// ---------------------------------------------------------------------------
// Grading options, terms, course listings
// ---------------------------------------------------------------------------

/// `s` without its leading `0`s.
pub open spec fn strip_leading_zeros(s: Seq<char>) -> Seq<char>
    decreases s.len(),
{
    if s.len() > 0 && s[0] == '0' {
        strip_leading_zeros(s.drop_first())
    } else {
        s
    }
}

/// A section of the schedule with the section ID `id`, as a predicate.
pub open spec fn scheduled_id_is(id: Seq<char>) -> spec_fn(ScheduledSectionView) -> bool {
    |s: ScheduledSectionView| s.section_id == id
}

/// The form that changes the grading option of the scheduled section `s`.
pub open spec fn change_grading_pairs(s: ScheduledSectionView, grade: GradeOption, term: Seq<char>) -> Seq<(Seq<char>, Seq<char>)> {
    seq![
        ("section"@, s.section_id),
        ("subjCode"@, Seq::empty()),
        ("crseCode"@, Seq::empty()),
        ("unit"@, int_decimal(s.units as int)),
        ("grade"@, grade_code(grade)),
        ("oldGrade"@, Seq::empty()),
        ("oldUnit"@, Seq::empty()),
        ("termcode"@, term),
    ]
}

/// Finds, in the schedule, the section with the section ID `section_id`
/// (without its leading zeros, since the schedule writes IDs as numbers) and
/// builds the form that changes its grading option (sent to [`CHANGE_ENROLL`]).
///
/// # Returns
/// The form, or the section ID not found in the schedule.
pub fn change_grading_form(
    schedule: &Vec<ScheduledSection>,
    section_id: &str,
    new_grade_opt: GradeOption,
    term: &str,
) -> (r: crate::types::Result<Vec<(String, String)>>)
    ensures
        first_where(schedule_view(schedule@), scheduled_id_is(strip_leading_zeros(section_id@))) is None ==> (r matches Err(
            e,
        ) && not_found(e, section_id@, SectionIdNotFoundContext::Schedule)),
        first_where(schedule_view(schedule@), scheduled_id_is(strip_leading_zeros(section_id@))) matches Some(s)
            ==> (r matches Ok(p) && pairs_view(p@) == change_grading_pairs(s, new_grade_opt, term@)),
{
    let id = str_chars(section_id);
    let mut left: usize = 0;
    assert(id@.skip(0) =~= id@);
    while left < id.len() && id[left] == '0'
        invariant
            left <= id@.len(),
            strip_leading_zeros(id@.skip(left as int)) == strip_leading_zeros(id@),
        decreases id@.len() - left,
    {
        assert(id@.skip(left as int).drop_first() =~= id@.skip(left + 1));
        left += 1;
    }
    let ghost wanted = strip_leading_zeros(id@);
    assert(strip_leading_zeros(id@.skip(left as int)) == id@.skip(left as int));
    let wanted_chars = crate::text::chars_slice_from(id.as_slice(), left);
    assert(wanted_chars@ == wanted);
    let ghost sv = schedule_view(schedule@);
    let mut i: usize = 0;
    assert(sv.take(0) =~= Seq::<ScheduledSectionView>::empty());
    while i < schedule.len()
        invariant
            i <= schedule@.len(),
            sv == schedule_view(schedule@),
            wanted_chars@ == wanted,
            wanted == strip_leading_zeros(section_id@),
            first_where(sv.take(i as int), scheduled_id_is(wanted)) is None,
        decreases schedule@.len() - i,
    {
        assert(sv.take(i + 1).drop_last() =~= sv.take(i as int));
        assert(sv.take(i + 1).last() == schedule@[i as int]@);
        let sid = str_chars(schedule[i].section_id.as_str());
        if crate::text::chars_eq(sid.as_slice(), wanted_chars.as_slice()) {
            proof {
                lemma_first_where_found(sv, scheduled_id_is(wanted), i + 1);
            }
            let s = &schedule[i];
            let units = crate::num::i64_to_string(s.units);
            let mut p: Vec<(String, String)> = Vec::new();
            push_pair(&mut p, "section", copy_string(s.section_id.as_str()));
            push_pair(&mut p, "subjCode", String::new());
            push_pair(&mut p, "crseCode", String::new());
            push_pair(&mut p, "unit", units);
            push_pair(&mut p, "grade", copy_string(new_grade_opt.as_str()));
            push_pair(&mut p, "oldGrade", String::new());
            push_pair(&mut p, "oldUnit", String::new());
            push_pair(&mut p, "termcode", copy_string(term));
            assert(pairs_view(p@) =~= change_grading_pairs(s@, new_grade_opt, term@));
            return Ok(p);
        }
        i += 1;
    }
    assert(sv.take(sv.len() as int) =~= sv);
    Err(WrapperError::SectionIdNotFound(copy_string(section_id), SectionIdNotFoundContext::Schedule))
}

/// The `SUBJ CODE` name of a course, as WebReg's course listing calls it:
/// the trimmed subject and course codes, a space between, in uppercase.
pub open spec fn course_dept_id(subject_code: Seq<char>, course_num: Seq<char>) -> Seq<char> {
    upper_text(trim(subject_code) + seq![' '] + trim(course_num))
}

/// The `SUBJ CODE` name of a course (e.g. `CSE 100`).
pub fn get_course_dept_id(subject_code: &str, course_num: &str) -> (r: String)
    ensures
        r@ == course_dept_id(subject_code@, course_num@),
{
    let mut v = crate::text::trimmed(subject_code);
    let ghost t = v@;
    v.push(' ');
    let c = crate::text::trimmed(course_num);
    crate::text::extend_chars(&mut v, c.as_slice());
    assert(v@ =~= t + seq![' '] + c@);
    let s = string_from_chars(v.as_slice());
    crate::text::uppercase(s.as_str())
}

/// The trimmed department codes of WebReg's department list.
pub fn department_codes(raw: &Vec<RawDepartmentElement>) -> (r: Vec<String>)
    ensures
        strs_view(r@) == raw@.map_values(|d: RawDepartmentElement| trim(d.dep_code@)),
{
    let mut out: Vec<String> = Vec::new();
    let mut i: usize = 0;
    while i < raw.len()
        invariant
            i <= raw@.len(),
            strs_view(out@) == raw@.take(i as int).map_values(|d: RawDepartmentElement| trim(d.dep_code@)),
        decreases raw@.len() - i,
    {
        let s = crate::text::trimmed_string(raw[i].dep_code.as_str());
        let ghost before = strs_view(out@);
        out.push(s);
        assert(strs_view(out@) =~= before.push(s@));
        assert(raw@.take(i + 1).map_values(|d: RawDepartmentElement| trim(d.dep_code@)) =~= raw@.take(
            i as int,
        ).map_values(|d: RawDepartmentElement| trim(d.dep_code@)).push(trim(raw@[i as int].dep_code@)));
        i += 1;
    }
    assert(raw@.take(raw@.len() as int) =~= raw@);
    out
}

/// The trimmed subject codes of WebReg's subject list.
pub fn subject_codes(raw: &Vec<RawSubjectElement>) -> (r: Vec<String>)
    ensures
        strs_view(r@) == raw@.map_values(|d: RawSubjectElement| trim(d.subject_code@)),
{
    let mut out: Vec<String> = Vec::new();
    let mut i: usize = 0;
    while i < raw.len()
        invariant
            i <= raw@.len(),
            strs_view(out@) == raw@.take(i as int).map_values(|d: RawSubjectElement| trim(d.subject_code@)),
        decreases raw@.len() - i,
    {
        let s = crate::text::trimmed_string(raw[i].subject_code.as_str());
        let ghost before = strs_view(out@);
        out.push(s);
        assert(strs_view(out@) =~= before.push(s@));
        assert(raw@.take(i + 1).map_values(|d: RawSubjectElement| trim(d.subject_code@)) =~= raw@.take(
            i as int,
        ).map_values(|d: RawSubjectElement| trim(d.subject_code@)).push(trim(raw@[i as int].subject_code@)));
        i += 1;
    }
    assert(raw@.take(raw@.len() as int) =~= raw@);
    out
}

/// The terms of WebReg's term list, each with its ID and code.
pub fn terms_of(raw: &Vec<RawTermListItem>) -> (r: Vec<Term>)
    ensures
        r@.len() == raw@.len(),
        forall|i: int| 0 <= i < raw@.len() ==> (#[trigger] r@[i]).seq_id == raw@[i].seq_id && r@[i].term_code@ == raw@[i].term_code@,
{
    let mut out: Vec<Term> = Vec::new();
    let mut i: usize = 0;
    while i < raw.len()
        invariant
            i <= raw@.len(),
            out@.len() == i,
            forall|k: int| 0 <= k < i ==> (#[trigger] out@[k]).seq_id == raw@[k].seq_id && out@[k].term_code@ == raw@[k].term_code@,
        decreases raw@.len() - i,
    {
        out.push(Term { seq_id: raw[i].seq_id, term_code: copy_string(raw[i].term_code.as_str()) });
        i += 1;
    }
    out
}

} // verus!

verus! {

// ---------------------------------------------------------------------------
// Terms
// ---------------------------------------------------------------------------

/// A term code that the term numbering can read: if it is four bytes long,
/// its second byte ends a character.
pub open spec fn term_code_readable(bytes: Seq<u8>) -> bool {
    bytes.len() == 4 ==> vstd::utf8::is_char_boundary(bytes, 2)
}

/// The query pairs that start the registration of a term.
pub open spec fn status_start_query(term: Seq<char>, seq_id: int, timestamp: u128) -> Seq<(Seq<char>, Seq<char>)> {
    seq![("termcode"@, term), ("seqid"@, int_decimal(seq_id)), ("_"@, nat_digits(timestamp as nat))]
}

/// The query pairs that check the eligibility for a term.
pub open spec fn eligibility_query(term: Seq<char>, seq_id: int, timestamp: u128) -> Seq<(Seq<char>, Seq<char>)> {
    seq![
        ("termcode"@, term),
        ("seqid"@, int_decimal(seq_id)),
        ("logged"@, "true"@),
        ("_"@, nat_digits(timestamp as nat)),
    ]
}

/// The two URLs that register a term with the session, in the order they are
/// requested: the start of the registration, then the eligibility check.
///
/// The term is read in uppercase; it is not valid when its term ID is `0`
/// (see [`crate::util::get_term_seq_id`]), nor when it is four bytes long and
/// its second byte does not end a character.
pub fn associate_term_urls(term: &str, timestamp: u128) -> (r: crate::types::Result<(String, String)>)
    ensures
        ({
            let upper = upper_text(term@);
            let bytes = vstd::utf8::encode_utf8(upper);
            let valid = term_code_readable(bytes) && crate::util::spec_term_seq_id(bytes) != 0;
            let seq_id = crate::util::spec_term_seq_id(bytes);
            let first = crate::ww_parser::spec_url_with_params(STATUS_START@, status_start_query(upper, seq_id, timestamp));
            let second = crate::ww_parser::spec_url_with_params(ELIGIBILITY@, eligibility_query(upper, seq_id, timestamp));
            &&& !valid ==> (r matches Err(e) && input_error(e, "term"@, "term is not valid."@))
            &&& valid && first is Some && second is Some ==> (r matches Ok(p) && Some(p.0@) == first && Some(p.1@)
                == second)
            &&& valid && (first is None || second is None) ==> (r matches Err(e) && e is UrlParseError)
        }),
{
    let upper = crate::text::uppercase(term);
    let t = upper.as_str();
    if t.len() == 4 && !t.is_char_boundary(2) {
        return Err(WrapperError::InputError("term", "term is not valid."));
    }
    let seq_id = crate::util::get_term_seq_id(t);
    if seq_id == 0 {
        return Err(WrapperError::InputError("term", "term is not valid."));
    }
    proof {
        reveal_strlit("true");
    }
    let mut p: Vec<(String, String)> = Vec::new();
    push_pair(&mut p, "termcode", copy_string(t));
    push_pair(&mut p, "seqid", crate::num::i64_to_string(seq_id));
    push_pair(&mut p, "_", timestamp_string(timestamp));
    assert(pairs_view(p@) =~= status_start_query(upper@, seq_id as int, timestamp));
    let first = url_of(STATUS_START, p)?;
    let mut q: Vec<(String, String)> = Vec::new();
    push_pair(&mut q, "termcode", copy_string(t));
    push_pair(&mut q, "seqid", crate::num::i64_to_string(seq_id));
    push_pair(&mut q, "logged", copy_string("true"));
    push_pair(&mut q, "_", timestamp_string(timestamp));
    assert(pairs_view(q@) =~= eligibility_query(upper@, seq_id as int, timestamp));
    let second = url_of(ELIGIBILITY, q)?;
    Ok((first, second))
}

// ---------------------------------------------------------------------------
// Detailed searches
// ---------------------------------------------------------------------------

/// `s` without its trailing `0`s.
pub open spec fn strip_trailing_zeros(s: Seq<char>) -> Seq<char>
    decreases s.len(),
{
    if s.len() > 0 && s.last() == '0' {
        strip_trailing_zeros(s.drop_last())
    } else {
        s
    }
}

/// A section ID with its leading and trailing zeros trimmed, the way a
/// detailed search compares IDs (`0001000` reads `1`, `00100100` reads `1001`,
/// `0000` reads as nothing).
pub open spec fn zero_trimmed(s: Seq<char>) -> Seq<char> {
    strip_trailing_zeros(strip_leading_zeros(s))
}

proof fn lemma_strip_trailing_take(s: Seq<char>, b: int)
    requires
        0 <= b <= s.len(),
        forall|j: int| b <= j < s.len() ==> s[j] == '0',
    ensures
        strip_trailing_zeros(s) == strip_trailing_zeros(s.take(b)),
    decreases s.len() - b,
{
    if b < s.len() {
        assert(s.drop_last().take(b) =~= s.take(b));
        lemma_strip_trailing_take(s.drop_last(), b);
    } else {
        assert(s.take(b) =~= s);
    }
}

proof fn lemma_strip_leading_skip(s: Seq<char>, a: int)
    requires
        0 <= a <= s.len(),
        forall|j: int| 0 <= j < a ==> s[j] == '0',
    ensures
        strip_leading_zeros(s) == strip_leading_zeros(s.skip(a)),
    decreases a,
{
    if a > 0 {
        assert(s.drop_first().skip(a - 1) =~= s.skip(a));
        lemma_strip_leading_skip(s.drop_first(), a - 1);
    } else {
        assert(s.skip(0) =~= s);
    }
}

/// A section ID with its zeros trimmed.
pub fn zero_trim(s: &str) -> (r: String)
    ensures
        r@ == zero_trimmed(s@),
{
    let v = str_chars(s);
    let mut start: usize = 0;
    while start < v.len() && v[start] == '0'
        invariant
            start <= v@.len(),
            forall|j: int| 0 <= j < start ==> v@[j] == '0',
        decreases v@.len() - start,
    {
        start += 1;
    }
    if start == v.len() {
        proof {
            lemma_strip_leading_skip(v@, start as int);
            assert(v@.skip(start as int) =~= Seq::<char>::empty());
        }
        return String::new();
    }
    let mut end: usize = v.len();
    while end > start && v[end - 1] == '0'
        invariant
            start < v@.len(),
            v@[start as int] != '0',
            start <= end <= v@.len(),
            forall|j: int| end <= j < v@.len() ==> v@[j] == '0',
        decreases end,
    {
        end -= 1;
    }
    assert(end > start);
    proof {
        lemma_strip_leading_skip(v@, start as int);
        assert(strip_leading_zeros(v@.skip(start as int)) == v@.skip(start as int));
        let t = v@.skip(start as int);
        lemma_strip_trailing_take(t, end - start);
        assert(strip_trailing_zeros(t.take(end - start)) == t.take(end - start));
        assert(t.take(end - start) =~= v@.subrange(start as int, end as int));
    }
    let mut out: Vec<char> = Vec::new();
    let mut i: usize = start;
    while i < end
        invariant
            start <= i <= end <= v@.len(),
            out@ == v@.subrange(start as int, i as int),
        decreases end - i,
    {
        out.push(v[i]);
        assert(v@.subrange(start as int, i + 1) =~= v@.subrange(start as int, i as int).push(v@[i as int]));
        i += 1;
    }
    string_from_chars(out.as_slice())
}

/// The trimmed section IDs that a detailed search keeps: that of a search by
/// section, those of a search by sections; none (keep all) for an advanced search.
pub open spec fn filter_ids(filter_by: SearchType) -> Seq<Seq<char>> {
    match filter_by {
        SearchType::BySection(s) => seq![zero_trimmed(s@)],
        SearchType::ByMultipleSections(v) => strs_view(v@).map_values(|x: Seq<char>| zero_trimmed(x)),
        SearchType::Advanced(_) => Seq::empty(),
    }
}

/// The trimmed section IDs that a detailed search keeps.
pub fn search_filter_ids(filter_by: &SearchType) -> (r: Vec<String>)
    ensures
        strs_view(r@) == filter_ids(*filter_by),
{
    let mut out: Vec<String> = Vec::new();
    match filter_by {
        SearchType::BySection(s) => {
            let t = zero_trim(s.as_str());
            out.push(t);
            assert(strs_view(out@) =~= seq![t@]);
        },
        SearchType::ByMultipleSections(v) => {
            let mut i: usize = 0;
            while i < v.len()
                invariant
                    i <= v@.len(),
                    strs_view(out@) == strs_view(v@).take(i as int).map_values(|x: Seq<char>| zero_trimmed(x)),
                decreases v@.len() - i,
            {
                let t = zero_trim(v[i].as_str());
                let ghost before = strs_view(out@);
                out.push(t);
                assert(strs_view(out@) =~= before.push(t@));
                assert(strs_view(v@).take(i + 1).map_values(|x: Seq<char>| zero_trimmed(x)) =~= strs_view(
                    v@,
                ).take(i as int).map_values(|x: Seq<char>| zero_trimmed(x)).push(zero_trimmed(v@[i as int]@)));
                i += 1;
            }
            assert(strs_view(v@).take(v@.len() as int) =~= strs_view(v@));
        },
        SearchType::Advanced(_) => {
            assert(strs_view(out@) =~= Seq::<Seq<char>>::empty());
        },
    }
    out
}

/// A section that a detailed search with the trimmed IDs `ids` keeps: all
/// when there are none, else those whose trimmed ID is one of them.
pub open spec fn section_wanted(ids: Seq<Seq<char>>, id: Seq<char>) -> bool {
    ids.len() == 0 || ids.contains(zero_trimmed(id))
}

/// The sections of `secs` that the IDs `ids` keep, in order.
pub open spec fn wanted_sections(ids: Seq<Seq<char>>, secs: Seq<CourseSectionView>) -> Seq<CourseSectionView>
    decreases secs.len(),
{
    if secs.len() == 0 {
        Seq::empty()
    } else if section_wanted(ids, secs.last().section_id) {
        wanted_sections(ids, secs.drop_last()).push(secs.last())
    } else {
        wanted_sections(ids, secs.drop_last())
    }
}

/// Whether `ids` holds the characters `k`.
fn strs_contain(ids: &Vec<String>, k: &str) -> (r: bool)
    ensures
        r == strs_view(ids@).contains(k@),
{
    let mut i: usize = 0;
    while i < ids.len()
        invariant
            i <= ids@.len(),
            forall|j: int| 0 <= j < i ==> ids@[j]@ != k@,
        decreases ids@.len() - i,
    {
        if crate::text::str_eq(ids[i].as_str(), k) {
            assert(strs_view(ids@)[i as int] == k@);
            return true;
        }
        i += 1;
    }
    proof {
        if strs_view(ids@).contains(k@) {
            let j = choose|j: int| 0 <= j < strs_view(ids@).len() && strs_view(ids@)[j] == k@;
            assert(ids@[j]@ == k@);
        }
    }
    false
}

/// Keeps the sections of a course that a detailed search asks for.
pub fn keep_wanted_sections(ids: &Vec<String>, sections: Vec<CourseSection>) -> (r: Vec<CourseSection>)
    ensures
        sections_view(r@) == wanted_sections(strs_view(ids@), sections_view(sections@)),
{
    let ghost all = sections_view(sections@);
    let ghost idv = strs_view(ids@);
    let mut rest = sections;
    let mut reversed: Vec<CourseSection> = Vec::new();
    while rest.len() > 0
        invariant
            all == sections_view(rest@) + sections_view(reversed@).reverse(),
        decreases rest@.len(),
    {
        let ghost before_rest = sections_view(rest@);
        let ghost before_rev = sections_view(reversed@);
        let s = rest.pop().unwrap();
        reversed.push(s);
        assert(before_rest =~= sections_view(rest@).push(s@));
        assert(sections_view(reversed@) =~= before_rev.push(s@));
        assert(sections_view(reversed@).reverse() =~= seq![s@] + before_rev.reverse());
        assert(all =~= sections_view(rest@) + sections_view(reversed@).reverse());
    }
    assert(all =~= sections_view(reversed@).reverse());
    let mut out: Vec<CourseSection> = Vec::new();
    let ghost n = all.len();
    assert(all.take(0) =~= Seq::<CourseSectionView>::empty());
    assert(sections_view(out@) =~= Seq::<CourseSectionView>::empty());
    assert(all.skip(0) =~= all);
    while reversed.len() > 0
        invariant
            n == all.len(),
            reversed@.len() <= n,
            sections_view(reversed@).reverse() == all.skip(n - reversed@.len()),
            idv == strs_view(ids@),
            n == all.len(),
            sections_view(out@) == wanted_sections(idv, all.take(n - reversed@.len())),
        decreases reversed@.len(),
    {
        let ghost before_rev = sections_view(reversed@);
        let ghost k = n - reversed@.len();
        let s = reversed.pop().unwrap();
        assert(before_rev =~= sections_view(reversed@).push(s@));
        assert(before_rev.reverse() =~= seq![s@] + sections_view(reversed@).reverse());
        assert(all.skip(k)[0] == all[k]);
        assert(all[k] == s@);
        assert(all.skip(k) == seq![s@] + sections_view(reversed@).reverse());
        assert(all.skip(k + 1) =~= all.skip(k).drop_first());
        assert((seq![s@] + sections_view(reversed@).reverse()).drop_first() =~= sections_view(reversed@).reverse());
        assert(sections_view(reversed@).reverse() == all.skip(k + 1));
        assert(all.take(k + 1).drop_last() =~= all.take(k));
        assert(all.take(k + 1).last() == s@);
        let t = zero_trim(s.section_id.as_str());
        if ids.len() == 0 || strs_contain(ids, t.as_str()) {
            let ghost before = sections_view(out@);
            out.push(s);
            assert(sections_view(out@) =~= before.push(s@));
        }
    }
    assert(all.take(n as int) =~= all);
    out
}

/// Where a detailed search stands after one course: going on with the
/// sections collected so far, or stopped with them.
pub enum DetailedSearch {
    /// The search goes on to the next course.
    Continue(Vec<CourseSection>),
    /// The search ends here.
    Stop(Vec<CourseSection>),
}

/// One course of a detailed search: the wanted sections of the course's
/// listing join those collected and the search goes on; a listing that could
/// not be had stops the search with the sections collected so far.
pub fn detailed_search_step(
    ids: &Vec<String>,
    collected: Vec<CourseSection>,
    listing: crate::types::Result<Vec<CourseSection>>,
) -> (r: DetailedSearch)
    ensures
        listing is Ok ==> (r matches DetailedSearch::Continue(v) && sections_view(v@) == sections_view(collected@)
            + wanted_sections(strs_view(ids@), sections_view(listing->Ok_0@))),
        listing is Err ==> r == DetailedSearch::Stop(collected),
{
    match listing {
        Ok(secs) => {
            let mut kept = keep_wanted_sections(ids, secs);
            let mut out = collected;
            out.append(&mut kept);
            assert(sections_view(out@) =~= sections_view(collected@) + wanted_sections(
                strs_view(ids@),
                sections_view(listing->Ok_0@),
            ));
            DetailedSearch::Continue(out)
        },
        Err(_) => DetailedSearch::Stop(collected),
    }
}

} // verus!

verus! {

proof fn lemma_strip_tags_from_clean(s: Seq<char>, in_tag: bool)
    ensures
        forall|i: int|
            0 <= i < strip_tags_from(s, in_tag).len() ==> #[trigger] strip_tags_from(s, in_tag)[i] != '<'
                && strip_tags_from(s, in_tag)[i] != '>',
    decreases s.len(),
{
    if s.len() > 0 {
        lemma_strip_tags_from_clean(s.drop_first(), true);
        lemma_strip_tags_from_clean(s.drop_first(), false);
        let r = strip_tags_from(s, in_tag);
        if s[0] == '<' || (s[0] != '>' && in_tag) {
            assert(r == strip_tags_from(s.drop_first(), true));
        } else if s[0] == '>' {
            assert(r == strip_tags_from(s.drop_first(), false));
        } else {
            let t = strip_tags_from(s.drop_first(), false);
            assert forall|i: int| 0 <= i < r.len() implies #[trigger] r[i] != '<' && r[i] != '>' by {
                if i > 0 {
                    assert(r[i] == t[i - 1]);
                }
            }
        }
    }
}

/// The reason that WebReg gives, once its tags are taken out, holds no `<`
/// or `>`.
pub proof fn lemma_strip_tags_clean(s: Seq<char>)
    ensures
        forall|i: int| 0 <= i < strip_tags(s).len() ==> #[trigger] strip_tags(s)[i] != '<' && strip_tags(s)[i] != '>',
{
    lemma_strip_tags_from_clean(s, false);
}

} // verus!

verus! {

proof fn lemma_nat_digits_lead(n: nat)
    requires
        n > 0,
    ensures
        nat_digits(n).len() > 0,
        nat_digits(n)[0] != '0',
    decreases n,
{
    if n >= 10 {
        lemma_nat_digits_lead(n / 10);
        assert(nat_digits(n)[0] == nat_digits(n / 10)[0]);
    } else {
        assert(nat_digits(n) == seq![crate::text::digit_char(n as int)]);
    }
}

/// A section ID that the schedule writes as a number (`79911`) is what the ID
/// with leading zeros that the rest of WebReg writes (`079911`) reads as once
/// its leading zeros are taken off, so a change of grading option finds it.
pub proof fn lemma_padded_id_matches_schedule(n: int, zeros: nat)
    requires
        n > 0,
    ensures
        strip_leading_zeros(Seq::new(zeros, |_i: int| '0') + int_decimal(n)) == int_decimal(n),
    decreases zeros,
{
    lemma_nat_digits_lead(n as nat);
    let d = int_decimal(n);
    if zeros == 0 {
        assert(Seq::new(0, |_i: int| '0') + d =~= d);
    } else {
        let s = Seq::new(zeros, |_i: int| '0') + d;
        assert(s.drop_first() =~= Seq::new((zeros - 1) as nat, |_i: int| '0') + d);
        lemma_padded_id_matches_schedule(n, (zeros - 1) as nat);
    }
}

} // verus!

verus! {

proof fn lemma_only_value(ps: Seq<(Seq<char>, Seq<char>)>, key: Seq<char>, at: int, val: Seq<char>)
    requires
        0 <= at < ps.len(),
        ps[at] == (key, val),
        forall|i: int| 0 <= i < ps.len() && i != at ==> #[trigger] ps[i].0 != key,
    ensures
        crate::ww_parser::pair_values(ps, key) == seq![val],
{
    assert forall|k: int| 0 <= k <= ps.len() implies #[trigger] crate::ww_parser::pair_values(ps.take(k), key) == if k
        > at {
        seq![val]
    } else {
        Seq::<Seq<char>>::empty()
    } by {
        lemma_values_prefix(ps, key, at, val, k);
    }
    assert(ps.take(ps.len() as int) =~= ps);
}

proof fn lemma_values_prefix(ps: Seq<(Seq<char>, Seq<char>)>, key: Seq<char>, at: int, val: Seq<char>, k: int)
    requires
        0 <= at < ps.len(),
        ps[at] == (key, val),
        forall|i: int| 0 <= i < ps.len() && i != at ==> #[trigger] ps[i].0 != key,
        0 <= k <= ps.len(),
    ensures
        crate::ww_parser::pair_values(ps.take(k), key) == if k > at { seq![val] } else { Seq::<Seq<char>>::empty() },
    decreases k,
{
    if k > 0 {
        lemma_values_prefix(ps, key, at, val, k - 1);
        assert(ps.take(k).drop_last() =~= ps.take(k - 1));
        assert(ps.take(k).last() == ps[k - 1]);
        if k - 1 == at {
            assert(Seq::<Seq<char>>::empty().push(val) =~= seq![val]);
        }
    }
}

/// The plan form names, once, the schedule that the course is planned into:
/// the schedule the caller named, or the default schedule only when none is named.
pub proof fn lemma_plan_form_schedule(p: PlanAdd, term: Seq<char>)
    ensures
        p.schedule_name matches Some(n) ==> crate::ww_parser::pair_values(plan_add_pairs(p, term), "schedname"@)
            == seq![n@],
        p.schedule_name is None ==> crate::ww_parser::pair_values(plan_add_pairs(p, term), "schedname"@)
            == seq![DEFAULT_SCHEDULE_NAME@],
{
    reveal_strlit("subjcode");
    reveal_strlit("crsecode");
    reveal_strlit("sectnum");
    reveal_strlit("sectcode");
    reveal_strlit("unit");
    reveal_strlit("grade");
    reveal_strlit("termcode");
    reveal_strlit("schedname");
    let ps = plan_add_pairs(p, term);
    assert forall|i: int| 0 <= i < ps.len() && i != 7 implies #[trigger] ps[i].0 != "schedname"@ by {
        assert(ps[i].0.len() != 9 || ps[i].0[1] != 'c');
    }
    lemma_only_value(ps, "schedname"@, 7, ps[7].1);
}

/// The event form gives the event's location, once: the location the event
/// has, and nothing only when it has none.
pub proof fn lemma_event_form_location(e: EventAdd, term: Seq<char>, timestamp: Option<Seq<char>>)
    ensures
        e.location matches Some(l) ==> crate::ww_parser::pair_values(event_pairs(e, term, timestamp), "aelocation"@)
            == seq![l@],
        e.location is None ==> crate::ww_parser::pair_values(event_pairs(e, term, timestamp), "aelocation"@)
            == seq![Seq::<char>::empty()],
{
    reveal_strlit("termcode");
    reveal_strlit("aename");
    reveal_strlit("aestarttime");
    reveal_strlit("aeendtime");
    reveal_strlit("aelocation");
    reveal_strlit("aedays");
    reveal_strlit("aetimestamp");
    let ps = event_pairs(e, term, timestamp);
    assert forall|i: int| 0 <= i < ps.len() && i != 4 implies #[trigger] ps[i].0 != "aelocation"@ by {
        assert(ps[i].0.len() != 10 || ps[i].0[2] != 'l');
    }
    lemma_only_value(ps, "aelocation"@, 4, ps[4].1);
}

} // verus!
