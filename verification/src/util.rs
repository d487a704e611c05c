//! Helpers that turn WebReg's encodings (day codes, term codes, course codes,
//! instructor lists) into readable values, and back.
use vstd::prelude::*;
use vstd::string::StringSliceAdditionalSpecFns;
use vstd::utf8::is_char_boundary;

use crate::num::{all_digits, digits_value, lemma_digits_value_nonneg, parse_i64_chars, spec_parse_i64};
use crate::order::{sort_dedup_chars, sorted_unique, strictly_sorted, lemma_sorted_unique_is};
use crate::raw_types::RawWebRegMeeting;
use crate::text::{
    before_char, char_is_digit, chars_before, chars_eq_str, chars_view, copy_string,
    extend_chars, is_digit, join, join_push, lemma_join_push, split_char, split_chars,
    split_words, str_chars, string_from_chars, uppercase, trim, trim_chars, trimmed,
    words, upper_text, ascii_upper, ascii_lower, ascii_upper_char, ascii_lower_char, is_ascii_text,
    lemma_ascii_upper_concat, lemma_join_ascii, lemma_words_ascii, is_blank, is_ws, lemma_join_concat, lemma_join_nonempty,
    lemma_words_nonempty, lemma_words_two,
};
use crate::types::{MeetingDay, MeetingDayView, strs_view, lemma_strs_view_push};

verus! {

// ---------------------------------------------------------------------------
// Day codes
// ---------------------------------------------------------------------------

/// The name of the day that a day-code digit stands for (`0` is Sunday).
pub open spec fn day_code_name(c: char) -> Seq<char> {
    if c == '0' {
        seq!['S', 'u']
    } else if c == '1' {
        seq!['M']
    } else if c == '2' {
        seq!['T', 'u']
    } else if c == '3' {
        seq!['W']
    } else if c == '4' {
        seq!['T', 'h']
    } else if c == '5' {
        seq!['F']
    } else {
        seq!['S', 'a']
    }
}

pub open spec fn is_day_code(c: char) -> bool {
    '0' <= c && c <= '6'
}

/// The days of a day-code string: one name per digit `0` through `6`, in
/// order; every other character is skipped.
pub open spec fn spec_day_codes(s: Seq<char>) -> Seq<Seq<char>>
    decreases s.len(),
{
    if s.len() == 0 {
        Seq::empty()
    } else if is_day_code(s.last()) {
        spec_day_codes(s.drop_last()).push(day_code_name(s.last()))
    } else {
        spec_day_codes(s.drop_last())
    }
}

fn day_code_string(c: char) -> (r: String)
    requires
        is_day_code(c),
    ensures
        r@ == day_code_name(c),
{
    if c == '0' {
        proof { reveal_strlit("Su"); }
        copy_string("Su")
    } else if c == '1' {
        proof { reveal_strlit("M"); }
        copy_string("M")
    } else if c == '2' {
        proof { reveal_strlit("Tu"); }
        copy_string("Tu")
    } else if c == '3' {
        proof { reveal_strlit("W"); }
        copy_string("W")
    } else if c == '4' {
        proof { reveal_strlit("Th"); }
        copy_string("Th")
    } else if c == '5' {
        proof { reveal_strlit("F"); }
        copy_string("F")
    } else {
        proof { reveal_strlit("Sa"); }
        copy_string("Sa")
    }
}

fn day_codes_of(s: &[char]) -> (r: Vec<String>)
    ensures
        strs_view(r@) == spec_day_codes(s@),
{
    let mut r: Vec<String> = Vec::new();
    let mut i: usize = 0;
    assert(s@.take(0) =~= Seq::<char>::empty());
    while i < s.len()
        invariant
            i <= s@.len(),
            strs_view(r@) == spec_day_codes(s@.take(i as int)),
        decreases s@.len() - i,
    {
        let c = s[i];
        assert(s@.take(i + 1).drop_last() =~= s@.take(i as int));
        if '0' <= c && c <= '6' {
            let d = day_code_string(c);
            r.push(d);
            assert(strs_view(r@) =~= spec_day_codes(s@.take(i as int)).push(day_code_name(c)));
        }
        i += 1;
    }
    assert(s@.take(s@.len() as int) =~= s@);
    r
}

/// Parses the days of the week from a day code string.
///
/// # Parameters
/// - `day_code_str`: The day code string. This should only contain integers between 0 and 6, both
/// inclusive.
///
/// # Returns
/// A string with the days of the week.
///
/// # Example
/// An input of `135` would return `["M", "W", "F"]`.
pub fn parse_day_code(day_code_str: &str) -> (r: Vec<String>)
    ensures
        strs_view(r@) == spec_day_codes(day_code_str@),
{
    let v = str_chars(day_code_str);
    day_codes_of(v.as_slice())
}

/// The name of the `idx`-th day of a binary day string (Monday first).
pub open spec fn binary_day_name(idx: int) -> Seq<char> {
    if idx == 0 {
        seq!['M']
    } else if idx == 1 {
        seq!['T', 'u']
    } else if idx == 2 {
        seq!['W']
    } else if idx == 3 {
        seq!['T', 'h']
    } else if idx == 4 {
        seq!['F']
    } else if idx == 5 {
        seq!['S', 'a']
    } else {
        seq!['S', 'u']
    }
}

/// The days whose digit is `1` among the first `n` of a binary day string.
pub open spec fn binary_days_upto(s: Seq<char>, n: int) -> Seq<Seq<char>>
    decreases n,
{
    if n <= 0 {
        Seq::empty()
    } else if s[n - 1] == '1' {
        binary_days_upto(s, n - 1).push(binary_day_name(n - 1))
    } else {
        binary_days_upto(s, n - 1)
    }
}

/// The active days of a binary day string: none unless it is seven bytes
/// long; otherwise the days whose digit is `1`.
pub open spec fn spec_binary_days(bytes_len: nat, s: Seq<char>) -> Seq<Seq<char>> {
    if bytes_len == 7 {
        binary_days_upto(s, 7)
    } else {
        Seq::empty()
    }
}

fn binary_day_string(idx: usize) -> (r: String)
    requires
        idx < 7,
    ensures
        r@ == binary_day_name(idx as int),
{
    if idx == 0 {
        proof { reveal_strlit("M"); }
        copy_string("M")
    } else if idx == 1 {
        proof { reveal_strlit("Tu"); }
        copy_string("Tu")
    } else if idx == 2 {
        proof { reveal_strlit("W"); }
        copy_string("W")
    } else if idx == 3 {
        proof { reveal_strlit("Th"); }
        copy_string("Th")
    } else if idx == 4 {
        proof { reveal_strlit("F"); }
        copy_string("F")
    } else if idx == 5 {
        proof { reveal_strlit("Sa"); }
        copy_string("Sa")
    } else {
        proof { reveal_strlit("Su"); }
        copy_string("Su")
    }
}

/// Parses a binary string representing the days that are active.
///
/// # Parameters
/// - `bin_str`: The binary string. Must be length 7. The first bit
/// represents Monday, the second bit represents Tuesday, and so on.
/// The `1` bit means that the day is active, and the `0` bit means
/// the day is inactive.
///
/// # Returns
/// A string with the days of the week.
///
/// # Example
/// An input of `1010101` would return `["M", "W", "F", "Su"]`.
pub fn parse_binary_days(bin_str: &str) -> (r: Vec<String>)
    requires
        bin_str.spec_bytes().len() == 7 ==> bin_str@.len() == 7,
    ensures
        strs_view(r@) == spec_binary_days(bin_str.spec_bytes().len(), bin_str@),
{
    let mut days: Vec<String> = Vec::new();
    if bin_str.as_bytes().len() == 7 {
        let day_vec = str_chars(bin_str);
        let mut idx: usize = 0;
        while idx < 7
            invariant
                idx <= 7,
                day_vec@.len() == 7,
                strs_view(days@) == binary_days_upto(day_vec@, idx as int),
            decreases 7 - idx,
        {
            if day_vec[idx] == '1' {
                let d = binary_day_string(idx);
                days.push(d);
                assert(strs_view(days@) =~= binary_days_upto(day_vec@, idx as int).push(
                    binary_day_name(idx as int),
                ));
            }
            idx += 1;
        }
    } else {
        assert(strs_view(days@) =~= Seq::<Seq<char>>::empty());
    }
    days
}

// ---------------------------------------------------------------------------
// Term codes
// ---------------------------------------------------------------------------

/// The term ID and two-digit year of the first term of each kind that the
/// numbering counts from: `SP22` is 5200, `S122` 5210, `S222` 5220, `S322`
/// 5230, `SU22` 5240, `FA22` 5250, `WI23` 5260.
pub open spec fn term_base(a: u8, b: u8) -> Option<(int, int)> {
    if a == 83 && b == 80 {
        Some((5200, 22))
    } else if a == 83 && b == 49 {
        Some((5210, 22))
    } else if a == 83 && b == 50 {
        Some((5220, 22))
    } else if a == 83 && b == 51 {
        Some((5230, 22))
    } else if a == 83 && b == 85 {
        Some((5240, 22))
    } else if a == 70 && b == 65 {
        Some((5250, 22))
    } else if a == 87 && b == 73 {
        Some((5260, 23))
    } else {
        None
    }
}

/// The term ID of a term code given by its UTF-8 bytes: a term that is `70`
/// IDs past the base of its kind for each year past the base year; `0` when
/// the code is not four bytes, names no known kind, or has no number for a
/// year.
pub open spec fn spec_term_seq_id(bytes: Seq<u8>) -> int {
    if bytes.len() != 4 {
        0
    } else {
        match term_base(bytes[0], bytes[1]) {
            None => 0,
            Some((base_seq_id, base_year)) => {
                match spec_parse_i64(seq![bytes[2] as char, bytes[3] as char]) {
                    None => 0,
                    Some(quarter_yr) => 70 * (quarter_yr - base_year) + base_seq_id,
                }
            },
        }
    }
}

/// Gets the term ID based on the term that was passed in.
///
/// # Parameters
/// - `term`: The term
///
/// # Returns
/// The term ID, if valid. If `0` is returned, then the input
/// is invalid.
pub fn get_term_seq_id(term: &str) -> (r: i64)
    requires
        term.spec_bytes().len() == 4 ==> is_char_boundary(term.spec_bytes(), 2),
    ensures
        r == spec_term_seq_id(term.spec_bytes()),
{
    if term.len() != 4 {
        return 0;
    }
    let bytes = term.as_bytes();
    let a = bytes[0];
    let b = bytes[1];
    let (base_seq_id, base_year): (i64, i64) = if a == 83 && b == 80 {
        (5200, 22)
    } else if a == 83 && b == 49 {
        (5210, 22)
    } else if a == 83 && b == 50 {
        (5220, 22)
    } else if a == 83 && b == 51 {
        (5230, 22)
    } else if a == 83 && b == 85 {
        (5240, 22)
    } else if a == 70 && b == 65 {
        (5250, 22)
    } else if a == 87 && b == 73 {
        (5260, 23)
    } else {
        return 0;
    };
    let mut year: Vec<char> = Vec::new();
    year.push(bytes[2] as char);
    year.push(bytes[3] as char);
    assert(year@ =~= seq![bytes@[2] as char, bytes@[3] as char]);
    match parse_i64_chars(year.as_slice()) {
        None => 0,
        Some(q) => {
            proof {
                lemma_two_char_value_bound(year@);
            }
            70 * (q - base_year) + base_seq_id
        },
    }
}

proof fn lemma_two_char_value_bound(s: Seq<char>)
    requires
        s.len() == 2,
        spec_parse_i64(s) is Some,
    ensures
        -99 <= spec_parse_i64(s)->0 <= 99,
{
    let ds = if s[0] == '-' || s[0] == '+' { s.drop_first() } else { s };
    assert(all_digits(ds) && 1 <= ds.len() <= 2);
    assert(crate::text::is_digit(ds[0]));
    assert(digits_value(ds.take(0)) == 0);
    assert(ds.take(1).drop_last() =~= ds.take(0));
    assert(digits_value(ds.take(1)) == crate::text::digit_value(ds[0]));
    if ds.len() == 1 {
        assert(ds.take(1) =~= ds);
    } else {
        assert(crate::text::is_digit(ds[1]));
        assert(ds.drop_last() =~= ds.take(1));
        assert(digits_value(ds) == digits_value(ds.take(1)) * 10 + crate::text::digit_value(ds[1]));
    }
}

// ---------------------------------------------------------------------------
// Course codes
// ---------------------------------------------------------------------------

/// The number of ASCII digits in `s`.
pub open spec fn count_digits(s: Seq<char>) -> nat
    decreases s.len(),
{
    if s.len() == 0 {
        0
    } else {
        count_digits(s.drop_last()) + if is_digit(s.last()) { 1nat } else { 0nat }
    }
}

/// A course number padded as WebReg's API expects: two spaces before a number
/// with one digit, one before a number with two digits, none otherwise.
pub open spec fn formatted_course_num(s: Seq<char>) -> Seq<char> {
    if count_digits(s) == 1 {
        seq![' ', ' '] + s
    } else if count_digits(s) == 2 {
        seq![' '] + s
    } else {
        s
    }
}

fn formatted_course_num_chars(s: &[char]) -> (r: Vec<char>)
    ensures
        r@ == formatted_course_num(s@),
{
    let mut n: usize = 0;
    let mut i: usize = 0;
    assert(s@.take(0) =~= Seq::<char>::empty());
    while i < s.len()
        invariant
            i <= s@.len(),
            n == count_digits(s@.take(i as int)),
            n <= i,
        decreases s@.len() - i,
    {
        assert(s@.take(i + 1).drop_last() =~= s@.take(i as int));
        if char_is_digit(s[i]) {
            n += 1;
        }
        i += 1;
    }
    assert(s@.take(s@.len() as int) =~= s@);
    let mut r: Vec<char> = Vec::new();
    if n == 1 {
        r.push(' ');
        r.push(' ');
    } else if n == 2 {
        r.push(' ');
    }
    extend_chars(&mut r, s);
    proof {
        if n == 1 {
            assert(r@ =~= seq![' ', ' '] + s@);
        } else if n == 2 {
            assert(r@ =~= seq![' '] + s@);
        } else {
            assert(r@ =~= s@);
        }
    }
    r
}

/// Gets the formatted course code so that it can be recognized by
/// WebReg's internal API.
///
/// # Parameters
/// - `course_code`: The course code, e.g. if you have the course
/// `CSE 110`, you would put `110`.
///
/// # Returns
/// The formatted course code for WebReg.
pub fn get_formatted_course_num(course_code: &str) -> (r: String)
    ensures
        r@ == formatted_course_num(course_code@),
{
    let v = str_chars(course_code);
    let f = formatted_course_num_chars(v.as_slice());
    string_from_chars(f.as_slice())
}

/// The index of the first ASCII digit in `s`, if any.
pub open spec fn first_digit(s: Seq<char>) -> Option<int>
    decreases s.len(),
{
    if s.len() == 0 {
        None
    } else if is_digit(s[0]) {
        Some(0)
    } else {
        match first_digit(s.drop_first()) {
            Some(k) => Some(k + 1),
            None => None,
        }
    }
}

pub proof fn lemma_first_digit(s: Seq<char>, k: int)
    requires
        0 <= k <= s.len(),
        forall|j: int| 0 <= j < k ==> !is_digit(#[trigger] s[j]),
    ensures
        k < s.len() && is_digit(s[k]) ==> first_digit(s) == Some(k),
        k == s.len() ==> first_digit(s) is None,
    decreases k,
{
    if k > 0 {
        assert forall|j: int| 0 <= j < k - 1 implies !is_digit(#[trigger] s.drop_first()[j]) by {
            assert(s.drop_first()[j] == s[j + 1]);
        }
        lemma_first_digit(s.drop_first(), k - 1);
    }
}

/// One white-space separated part of a course query: a course number is
/// padded; a subject followed directly by a number becomes `SUBJ:number`
/// with the number padded; anything else is kept.
pub open spec fn format_part(item: Seq<char>) -> Seq<char> {
    if item.len() == 0 {
        Seq::empty()
    } else if is_digit(item[0]) {
        formatted_course_num(item)
    } else {
        match first_digit(item) {
            Some(k) => item.take(k) + seq![':'] + formatted_course_num(item.skip(k)),
            None => item,
        }
    }
}

/// One course of a query: its parts, each formatted, joined by `:`.
pub open spec fn format_course(q: Seq<char>) -> Seq<char> {
    join(words(q).map_values(|w: Seq<char>| format_part(w)), seq![':'])
}

/// The queries that hold at least one word, each formatted.
pub open spec fn formatted_courses(qs: Seq<Seq<char>>) -> Seq<Seq<char>>
    decreases qs.len(),
{
    if qs.len() == 0 {
        Seq::empty()
    } else if words(qs.last()).len() > 0 {
        formatted_courses(qs.drop_last()).push(format_course(qs.last()))
    } else {
        formatted_courses(qs.drop_last())
    }
}

/// The search string for several course queries: each query that holds a
/// word, formatted, joined by `;`, then upper-cased.
pub open spec fn spec_format_multiple_courses(qs: Seq<Seq<char>>) -> Seq<char> {
    upper_text(course_search_text(qs))
}

/// The search string for several course queries before upper-casing: each
/// query that holds a word, formatted, joined by `;`.
pub open spec fn course_search_text(qs: Seq<Seq<char>>) -> Seq<char> {
    join(formatted_courses(qs), seq![';'])
}

proof fn lemma_formatted_courses_concat(q1: Seq<Seq<char>>, q2: Seq<Seq<char>>)
    ensures
        formatted_courses(q1 + q2) == formatted_courses(q1) + formatted_courses(q2),
    decreases q2.len(),
{
    if q2.len() == 0 {
        assert(q1 + q2 =~= q1);
        assert(formatted_courses(q1) + formatted_courses(q2) =~= formatted_courses(q1));
    } else {
        lemma_formatted_courses_concat(q1, q2.drop_last());
        assert((q1 + q2).drop_last() =~= q1 + q2.drop_last());
        assert((q1 + q2).last() == q2.last());
        let a = formatted_courses(q1);
        let b = formatted_courses(q2.drop_last());
        assert((a + b).push(format_course(q2.last())) =~= a + b.push(format_course(q2.last())));
    }
}

proof fn lemma_format_part_nonempty(w: Seq<char>)
    requires
        w.len() > 0,
    ensures
        format_part(w).len() > 0,
{
    if is_digit(w[0]) {
        assert(formatted_course_num(w).len() >= w.len());
    } else {
        match first_digit(w) {
            Some(k) => {
                assert((w.take(k) + seq![':'] + formatted_course_num(w.skip(k))).len() >= 1);
            },
            None => {},
        }
    }
}

proof fn lemma_format_course_nonempty(q: Seq<char>)
    requires
        words(q).len() > 0,
    ensures
        format_course(q).len() > 0,
{
    lemma_words_nonempty(q);
    let parts = words(q).map_values(|w: Seq<char>| format_part(w));
    assert forall|i: int| 0 <= i < parts.len() implies #[trigger] parts[i].len() > 0 by {
        lemma_format_part_nonempty(words(q)[i]);
    }
    lemma_join_nonempty(parts, seq![':']);
}

proof fn lemma_formatted_courses_nonempty(qs: Seq<Seq<char>>)
    ensures
        forall|i: int| 0 <= i < formatted_courses(qs).len() ==> #[trigger] formatted_courses(qs)[i].len() > 0,
        formatted_courses(qs).len() == 0 <==> forall|i: int| 0 <= i < qs.len() ==> is_blank(#[trigger] qs[i]),
    decreases qs.len(),
{
    if qs.len() > 0 {
        let t = qs.drop_last();
        lemma_formatted_courses_nonempty(t);
        lemma_words_nonempty(qs.last());
        let f = formatted_courses(t);
        if words(qs.last()).len() > 0 {
            lemma_format_course_nonempty(qs.last());
            let g = f.push(format_course(qs.last()));
            assert forall|i: int| 0 <= i < g.len() implies #[trigger] g[i].len() > 0 by {
                if i < f.len() {
                    assert(g[i] == f[i]);
                }
            }
            assert(!is_blank(qs[qs.len() - 1]));
        } else {
            assert(is_blank(qs[qs.len() - 1]));
            if forall|i: int| 0 <= i < t.len() ==> is_blank(#[trigger] t[i]) {
                assert forall|i: int| 0 <= i < qs.len() implies is_blank(#[trigger] qs[i]) by {
                    if i < t.len() {
                        assert(qs[i] == t[i]);
                    }
                }
            }
            if forall|i: int| 0 <= i < qs.len() ==> is_blank(#[trigger] qs[i]) {
                assert forall|i: int| 0 <= i < t.len() implies is_blank(#[trigger] t[i]) by {
                    assert(qs[i] == t[i]);
                }
            }
        }
    }
}

/// The search text of two query lists put together is the two search texts
/// joined by `;`, an empty one left out; the search text of no queries is
/// empty; and a search text is empty exactly when every query is white space
/// only. The search string is the search text upper-cased.
pub proof fn lemma_course_search_text_join(q1: Seq<Seq<char>>, q2: Seq<Seq<char>>)
    ensures
        course_search_text(Seq::empty()) == Seq::<char>::empty(),
        course_search_text(q1 + q2) == if course_search_text(q1).len() == 0 {
            course_search_text(q2)
        } else if course_search_text(q2).len() == 0 {
            course_search_text(q1)
        } else {
            course_search_text(q1) + seq![';'] + course_search_text(q2)
        },
        course_search_text(q1).len() == 0 <==> forall|i: int| 0 <= i < q1.len() ==> is_blank(#[trigger] q1[i]),
        spec_format_multiple_courses(q1) == upper_text(course_search_text(q1)),
{
    lemma_formatted_courses_concat(q1, q2);
    lemma_formatted_courses_nonempty(q1);
    lemma_formatted_courses_nonempty(q2);
    lemma_join_nonempty(formatted_courses(q1), seq![';']);
    lemma_join_nonempty(formatted_courses(q2), seq![';']);
    lemma_join_concat(formatted_courses(q1), formatted_courses(q2), seq![';']);
}

/// An ASCII letter.
pub open spec fn is_ascii_letter(c: char) -> bool {
    ('a' <= c && c <= 'z') || ('A' <= c && c <= 'Z')
}

proof fn lemma_ascii_sub(s: Seq<char>, a: int, b: int)
    requires
        is_ascii_text(s),
        0 <= a <= b <= s.len(),
    ensures
        is_ascii_text(s.subrange(a, b)),
{
    assert forall|j: int| 0 <= j < s.subrange(a, b).len() implies (#[trigger] s.subrange(a, b)[j] as u32) < 128 by {
        assert(s.subrange(a, b)[j] == s[a + j]);
    }
}

proof fn lemma_padding_ascii()
    ensures
        is_ascii_text(seq![' ']),
        is_ascii_text(seq![' ', ' ']),
        is_ascii_text(seq![':']),
        is_ascii_text(seq![';']),
        ascii_upper(seq![';']) == seq![';'],
        ascii_lower(seq![':']) == seq![':'],
        ascii_lower(seq![' ']) == seq![' '],
        ascii_lower(seq![' ', ' ']) == seq![' ', ' '],
{
    assert(ascii_upper(seq![';']) =~= seq![';']);
    assert(ascii_lower(seq![':']) =~= seq![':']);
    assert(ascii_lower(seq![' ']) =~= seq![' ']);
    assert(ascii_lower(seq![' ', ' ']) =~= seq![' ', ' ']);
}

proof fn lemma_formatted_course_num_ascii(s: Seq<char>)
    requires
        is_ascii_text(s),
    ensures
        is_ascii_text(formatted_course_num(s)),
{
    lemma_padding_ascii();
    lemma_ascii_upper_concat(seq![' ', ' '], s);
    lemma_ascii_upper_concat(seq![' '], s);
}

proof fn lemma_format_part_ascii(w: Seq<char>)
    requires
        is_ascii_text(w),
    ensures
        is_ascii_text(format_part(w)),
{
    lemma_padding_ascii();
    if w.len() > 0 {
        if is_digit(w[0]) {
            lemma_formatted_course_num_ascii(w);
        } else {
            match first_digit(w) {
                Some(k) => {
                    lemma_first_digit_bound(w);
                    lemma_ascii_sub(w, 0, k);
                    lemma_ascii_sub(w, k, w.len() as int);
                    assert(w.take(k) =~= w.subrange(0, k));
                    assert(w.skip(k) =~= w.subrange(k, w.len() as int));
                    lemma_formatted_course_num_ascii(w.skip(k));
                    lemma_ascii_upper_concat(w.take(k), seq![':']);
                    lemma_ascii_upper_concat(w.take(k) + seq![':'], formatted_course_num(w.skip(k)));
                },
                None => {},
            }
        }
    }
}

proof fn lemma_first_digit_bound(s: Seq<char>)
    ensures
        first_digit(s) matches Some(k) ==> 0 <= k < s.len(),
    decreases s.len(),
{
    if s.len() > 0 && !is_digit(s[0]) {
        lemma_first_digit_bound(s.drop_first());
    }
}

proof fn lemma_course_search_text_ascii(qs: Seq<Seq<char>>)
    requires
        forall|i: int| 0 <= i < qs.len() ==> is_ascii_text(#[trigger] qs[i]),
    ensures
        is_ascii_text(course_search_text(qs)),
{
    lemma_formatted_courses_ascii(qs);
    lemma_padding_ascii();
    lemma_join_ascii(formatted_courses(qs), seq![';']);
}

proof fn lemma_formatted_courses_ascii(qs: Seq<Seq<char>>)
    requires
        forall|i: int| 0 <= i < qs.len() ==> is_ascii_text(#[trigger] qs[i]),
    ensures
        forall|i: int| 0 <= i < formatted_courses(qs).len() ==> is_ascii_text(#[trigger] formatted_courses(qs)[i]),
    decreases qs.len(),
{
    if qs.len() > 0 {
        let t = qs.drop_last();
        assert forall|i: int| 0 <= i < t.len() implies is_ascii_text(#[trigger] t[i]) by {
            assert(t[i] == qs[i]);
        }
        lemma_formatted_courses_ascii(t);
        let f = formatted_courses(t);
        if words(qs.last()).len() > 0 {
            let q = qs.last();
            assert(is_ascii_text(qs[qs.len() - 1]));
            lemma_words_ascii(q);
            let parts = words(q).map_values(|w: Seq<char>| format_part(w));
            assert forall|i: int| 0 <= i < parts.len() implies is_ascii_text(#[trigger] parts[i]) by {
                lemma_format_part_ascii(words(q)[i]);
            }
            lemma_padding_ascii();
            lemma_join_ascii(parts, seq![':']);
            let g = f.push(format_course(q));
            assert forall|i: int| 0 <= i < g.len() implies is_ascii_text(#[trigger] g[i]) by {
                if i < f.len() {
                    assert(g[i] == f[i]);
                }
            }
        }
    }
}

/// For queries of ASCII text, the search strings join as their search texts
/// do: that of no queries is empty; that of two query lists put together is
/// the two joined by `;`, an empty one left out; and one is empty exactly when
/// every query is white space only.
pub proof fn lemma_format_multiple_courses_join(q1: Seq<Seq<char>>, q2: Seq<Seq<char>>)
    requires
        forall|i: int| 0 <= i < q1.len() ==> is_ascii_text(#[trigger] q1[i]),
        forall|i: int| 0 <= i < q2.len() ==> is_ascii_text(#[trigger] q2[i]),
    ensures
        spec_format_multiple_courses(Seq::empty()) == Seq::<char>::empty(),
        spec_format_multiple_courses(q1 + q2) == if spec_format_multiple_courses(q1).len() == 0 {
            spec_format_multiple_courses(q2)
        } else if spec_format_multiple_courses(q2).len() == 0 {
            spec_format_multiple_courses(q1)
        } else {
            spec_format_multiple_courses(q1) + seq![';'] + spec_format_multiple_courses(q2)
        },
        spec_format_multiple_courses(q1).len() == 0 <==> forall|i: int| 0 <= i < q1.len() ==> is_blank(#[trigger] q1[i]),
{
    lemma_course_search_text_join(q1, q2);
    let e = Seq::<Seq<char>>::empty();
    lemma_course_search_text_join(e, e);
    assert(is_ascii_text(course_search_text(e)));
    assert(ascii_upper(Seq::<char>::empty()) =~= Seq::<char>::empty());
    let q = q1 + q2;
    assert forall|i: int| 0 <= i < q.len() implies is_ascii_text(#[trigger] q[i]) by {
        if i < q1.len() {
            assert(q[i] == q1[i]);
        } else {
            assert(q[i] == q2[i - q1.len()]);
        }
    }
    lemma_course_search_text_ascii(q1);
    lemma_course_search_text_ascii(q2);
    lemma_course_search_text_ascii(q);
    let t1 = course_search_text(q1);
    let t2 = course_search_text(q2);
    lemma_padding_ascii();
    lemma_ascii_upper_concat(t1, seq![';']);
    lemma_ascii_upper_concat(t1 + seq![';'], t2);
    lemma_ascii_upper_concat(t2, t2);
}

proof fn lemma_lower_keeps_digits(n: Seq<char>)
    ensures
        count_digits(ascii_lower(n)) == count_digits(n),
        ascii_lower(n).len() == n.len(),
        forall|j: int| 0 <= j < n.len() ==> (is_digit(#[trigger] ascii_lower(n)[j]) <==> is_digit(n[j])),
        forall|j: int| 0 <= j < n.len() ==> (is_ws(#[trigger] ascii_lower(n)[j]) <==> is_ws(n[j])),
    decreases n.len(),
{
    if n.len() > 0 {
        lemma_lower_keeps_digits(n.drop_last());
        assert(ascii_lower(n).drop_last() =~= ascii_lower(n.drop_last()));
        assert(ascii_lower(n).last() == ascii_lower_char(n.last()));
    }
}

proof fn lemma_formatted_course_num_lower(n: Seq<char>)
    ensures
        formatted_course_num(ascii_lower(n)) == ascii_lower(formatted_course_num(n)),
{
    lemma_lower_keeps_digits(n);
    lemma_padding_ascii();
    lemma_ascii_upper_concat(seq![' ', ' '], n);
    lemma_ascii_upper_concat(seq![' '], n);
}

/// A subject of ASCII letters followed by an ASCII course number that starts
/// with a digit gives the same search string with or without a space between
/// them, and in lower case as in upper case: the subject, `:` and the padded
/// number, upper-cased.
pub proof fn lemma_format_course_code_case(s: Seq<char>, n: Seq<char>)
    requires
        s.len() > 0,
        n.len() > 0,
        forall|j: int| 0 <= j < s.len() ==> is_ascii_letter(#[trigger] s[j]),
        is_digit(n[0]),
        is_ascii_text(n),
        forall|j: int| 0 <= j < n.len() ==> !is_ws(#[trigger] n[j]),
    ensures
        spec_format_multiple_courses(seq![s + seq![' '] + n]) == spec_format_multiple_courses(seq![s + n]),
        spec_format_multiple_courses(seq![ascii_lower(s + n)]) == spec_format_multiple_courses(seq![s + n]),
        spec_format_multiple_courses(seq![s + n]) == upper_text(s + seq![':'] + formatted_course_num(n)),
{
    lemma_course_code_spacing(s, n);
    let ls = ascii_lower(s);
    let ln = ascii_lower(n);
    lemma_ascii_upper_concat(s, n);
    lemma_lower_keeps_digits(s);
    lemma_lower_keeps_digits(n);
    assert forall|j: int| 0 <= j < ls.len() implies is_ascii_letter(#[trigger] ls[j]) by {
        assert(is_ascii_letter(s[j]));
        assert(ls[j] == ascii_lower_char(s[j]));
    }
    assert(is_digit(ln[0]));
    assert forall|j: int| 0 <= j < ln.len() implies !is_ws(#[trigger] ln[j]) by {
        assert(!is_ws(n[j]));
    }
    lemma_course_code_spacing(ls, ln);
    assert(ascii_lower(s + n) == ls + ln);
    // The lower-case text is the lower-cased upper-case text.
    let t = s + seq![':'] + formatted_course_num(n);
    lemma_formatted_course_num_lower(n);
    lemma_padding_ascii();
    lemma_ascii_upper_concat(s, seq![':']);
    lemma_ascii_upper_concat(s + seq![':'], formatted_course_num(n));
    assert(ls + seq![':'] + formatted_course_num(ln) == ascii_lower(t));
    // Both texts are ASCII.
    assert forall|j: int| 0 <= j < s.len() implies (#[trigger] s[j] as u32) < 128 by {
        assert(is_ascii_letter(s[j]));
    }
    lemma_formatted_course_num_ascii(n);
    assert(is_ascii_text(t));
    assert forall|j: int| 0 <= j < t.len() implies (#[trigger] ascii_lower(t)[j] as u32) < 128 by {
        assert((t[j] as u32) < 128);
        assert(ascii_lower(t)[j] == ascii_lower_char(t[j]));
    }
    // Upper-casing undoes lower-casing.
    assert(ascii_upper(ascii_lower(t)) =~= ascii_upper(t)) by {
        assert forall|j: int| 0 <= j < t.len() implies ascii_upper(ascii_lower(t))[j] == ascii_upper(t)[j] by {
            let c = t[j];
            assert(ascii_lower(t)[j] == ascii_lower_char(c));
            assert(ascii_upper_char(ascii_lower_char(c)) == ascii_upper_char(c));
        }
    }
}

/// A subject of ASCII letters and a course number that starts with a digit
/// give the same search text with or without a space between them: the
/// subject, `:` and the padded number.
pub proof fn lemma_course_code_spacing(s: Seq<char>, n: Seq<char>)
    requires
        s.len() > 0,
        n.len() > 0,
        forall|j: int| 0 <= j < s.len() ==> is_ascii_letter(#[trigger] s[j]),
        is_digit(n[0]),
        forall|j: int| 0 <= j < n.len() ==> !is_ws(#[trigger] n[j]),
    ensures
        course_search_text(seq![s + seq![' '] + n]) == s + seq![':'] + formatted_course_num(n),
        course_search_text(seq![s + n]) == s + seq![':'] + formatted_course_num(n),
        spec_format_multiple_courses(seq![s + seq![' '] + n]) == spec_format_multiple_courses(seq![s + n]),
{
    assert forall|j: int| 0 <= j < s.len() implies !is_ws(#[trigger] s[j]) by {
        assert(is_ascii_letter(s[j]));
    }
    lemma_words_two(s, n);
    assert forall|j: int| 0 <= j < s.len() implies !is_digit(#[trigger] s[j]) by {
        assert(is_ascii_letter(s[j]));
    }
    lemma_first_digit(s, s.len() as int);
    let sn = s + n;
    assert forall|j: int| 0 <= j < s.len() implies !is_digit(#[trigger] sn[j]) by {
        assert(sn[j] == s[j]);
        assert(is_ascii_letter(s[j]));
    }
    assert(sn[s.len() as int] == n[0]);
    lemma_first_digit(sn, s.len() as int);
    assert(sn.take(s.len() as int) =~= s);
    assert(sn.skip(s.len() as int) =~= n);
    assert(is_ascii_letter(s[0]));
    assert(sn[0] == s[0]);
    assert(format_part(s) == s);
    assert(format_part(n) == formatted_course_num(n));
    assert(format_part(sn) == s + seq![':'] + formatted_course_num(n));
    let x = s + seq![' '] + n;
    assert(seq![s, n].map_values(|w: Seq<char>| format_part(w)) =~= seq![s, formatted_course_num(n)]);
    assert(seq![sn].map_values(|w: Seq<char>| format_part(w)) =~= seq![format_part(sn)]);
    let e = Seq::<Seq<char>>::empty();
    lemma_join_push(e, seq![':'], s);
    assert(e.push(s) =~= seq![s]);
    lemma_join_push(seq![s], seq![':'], formatted_course_num(n));
    assert(seq![s].push(formatted_course_num(n)) =~= seq![s, formatted_course_num(n)]);
    assert(join(seq![s, formatted_course_num(n)], seq![':']) =~= s + seq![':'] + formatted_course_num(n));
    assert(format_course(x) == s + seq![':'] + formatted_course_num(n));
    assert(format_course(sn) == s + seq![':'] + formatted_course_num(n));
    let qx = seq![x];
    let qsn = seq![sn];
    assert(qx.drop_last() =~= Seq::<Seq<char>>::empty());
    assert(qsn.drop_last() =~= Seq::<Seq<char>>::empty());
    assert(qx.last() == x);
    assert(qsn.last() == sn);
    assert(words(x).len() == 2);
    assert(words(sn).len() == 1);
    assert(formatted_courses(e) == e);
    assert(formatted_courses(qx) == formatted_courses(qx.drop_last()).push(format_course(qx.last())));
    assert(e.push(format_course(x)) =~= seq![format_course(x)]);
    assert(formatted_courses(qx) =~= seq![format_course(x)]);
    assert(formatted_courses(qsn) =~= seq![format_course(sn)]);
}

fn format_part_chars(item: &[char]) -> (r: Vec<char>)
    ensures
        r@ == format_part(item@),
{
    if item.len() == 0 {
        return Vec::new();
    }
    if char_is_digit(item[0]) {
        return formatted_course_num_chars(item);
    }
    let mut k: usize = 0;
    while k < item.len() && !char_is_digit(item[k])
        invariant
            k <= item@.len(),
            forall|j: int| 0 <= j < k ==> !is_digit(#[trigger] item@[j]),
        decreases item@.len() - k,
    {
        k += 1;
    }
    proof {
        lemma_first_digit(item@, k as int);
    }
    if k == item.len() {
        let mut r: Vec<char> = Vec::new();
        extend_chars(&mut r, item);
        assert(r@ =~= item@);
        return r;
    }
    let mut subj: Vec<char> = Vec::new();
    let mut rest: Vec<char> = Vec::new();
    let mut i: usize = 0;
    while i < item.len()
        invariant
            i <= item@.len(),
            k < item@.len(),
            subj@ == item@.take(if i < k { i as int } else { k as int }),
            rest@ == (if i <= k { Seq::<char>::empty() } else { item@.subrange(k as int, i as int) }),
        decreases item@.len() - i,
    {
        if i < k {
            subj.push(item[i]);
            assert(item@.take(i + 1) =~= item@.take(i as int).push(item@[i as int]));
        } else {
            rest.push(item[i]);
            assert(item@.subrange(k as int, i + 1) =~= (if i <= k { Seq::<char>::empty() } else {
                item@.subrange(k as int, i as int)
            }).push(item@[i as int]));
        }
        i += 1;
    }
    assert(rest@ =~= item@.skip(k as int));
    let num = formatted_course_num_chars(rest.as_slice());
    let mut r = subj;
    r.push(':');
    extend_chars(&mut r, num.as_slice());
    assert(r@ =~= item@.take(k as int) + seq![':'] + formatted_course_num(item@.skip(k as int)));
    r
}

fn format_course_chars(q: &[char]) -> (r: Vec<char>)
    ensures
        r@ == format_course(q@),
{
    let ws = split_words(q);
    let ghost wv = chars_view(ws@);
    let mut out: Vec<char> = Vec::new();
    let mut i: usize = 0;
    let sep = vec![':'];
    assert(sep@ =~= seq![':']);
    assert(wv.take(0).map_values(|w: Seq<char>| format_part(w)) =~= Seq::<Seq<char>>::empty());
    while i < ws.len()
        invariant
            i <= ws@.len(),
            wv == chars_view(ws@),
            wv == words(q@),
            sep@ == seq![':'],
            out@ == join(wv.take(i as int).map_values(|w: Seq<char>| format_part(w)), seq![':']),
        decreases ws@.len() - i,
    {
        let part = format_part_chars(ws[i].as_slice());
        let ghost prev = wv.take(i as int).map_values(|w: Seq<char>| format_part(w));
        proof {
            lemma_join_push(prev, seq![':'], part@);
            assert(wv.take(i + 1).map_values(|w: Seq<char>| format_part(w)) =~= prev.push(part@));
        }
        join_push(&mut out, i, sep.as_slice(), part.as_slice());
        i += 1;
    }
    assert(wv.take(wv.len() as int) =~= wv);
    out
}

/// Formats multiple course inputs into a string that WebReg can recognize
/// for its search queries.
///
/// # Parameters
/// - `query`: The vector of courses to format. Each element can either be a
/// full course code (e.g., `CSE 100`) or a partial course code (e.g., `CSE`
/// or `100`).
///
/// # Returns
/// The formatted string.
pub fn format_multiple_courses(query: &[&str]) -> (r: String)
    ensures
        r@ == spec_format_multiple_courses(query@.map_values(|s: &str| s@)),
{
    let ghost qv = query@.map_values(|s: &str| s@);
    let mut out: Vec<char> = Vec::new();
    let mut count: usize = 0;
    let mut i: usize = 0;
    let sep = vec![';'];
    assert(sep@ =~= seq![';']);
    assert(qv.take(0) =~= Seq::<Seq<char>>::empty());
    while i < query.len()
        invariant
            i <= query@.len(),
            qv == query@.map_values(|s: &str| s@),
            sep@ == seq![';'],
            count == formatted_courses(qv.take(i as int)).len(),
            count <= i,
            out@ == join(formatted_courses(qv.take(i as int)), seq![';']),
        decreases query@.len() - i,
    {
        let q = str_chars(query[i]);
        let ws = split_words(q.as_slice());
        assert(qv.take(i + 1).drop_last() =~= qv.take(i as int));
        assert(qv.take(i + 1).last() == q@);
        if ws.len() > 0 {
            let c = format_course_chars(q.as_slice());
            proof {
                lemma_join_push(formatted_courses(qv.take(i as int)), seq![';'], c@);
            }
            join_push(&mut out, count, sep.as_slice(), c.as_slice());
            count += 1;
        }
        i += 1;
    }
    assert(qv.take(qv.len() as int) =~= qv);
    let joined = string_from_chars(out.as_slice());
    uppercase(joined.as_str())
}

// ---------------------------------------------------------------------------
// Instructors
// ---------------------------------------------------------------------------

/// One instructor entry `name ;pid`: the trimmed name before the `;`.
pub open spec fn instructor_entry_name(piece: Seq<char>) -> Seq<char> {
    trim(before_char(piece, ';'))
}

/// The instructors of an instructor string `name1 ;pid1:name2 ;pid2:...`: the
/// trimmed name of each `:`-separated entry.
pub open spec fn spec_instructor_names(s: Seq<char>) -> Seq<Seq<char>> {
    split_char(s, ':').map_values(|p: Seq<char>| instructor_entry_name(p))
}

/// Gets the instructor's names.
///
/// # Parameters
/// - `instructor_name`: The raw name.
///
/// # Returns
/// The parsed instructor's names, as a vector.
pub fn get_instructor_names(instructor_name: &str) -> (r: Vec<String>)
    ensures
        strs_view(r@) == spec_instructor_names(instructor_name@),
{
    let v = str_chars(instructor_name);
    let pieces = split_chars(v.as_slice(), ':');
    let ghost pv = chars_view(pieces@);
    let mut r: Vec<String> = Vec::new();
    let mut i: usize = 0;
    while i < pieces.len()
        invariant
            i <= pieces@.len(),
            pv == chars_view(pieces@),
            pv == split_char(v@, ':'),
            strs_view(r@) == pv.take(i as int).map_values(|p: Seq<char>| instructor_entry_name(p)),
        decreases pieces@.len() - i,
    {
        let before = chars_before(pieces[i].as_slice(), ';');
        let name = trim_chars(before.as_slice());
        let s = string_from_chars(name.as_slice());
        proof {
            lemma_strs_view_push(r@, s);
            assert(pv.take(i + 1) =~= pv.take(i as int).push(pv[i as int]));
            assert(pv.take(i + 1).map_values(|p: Seq<char>| instructor_entry_name(p)) =~= pv.take(
                i as int,
            ).map_values(|p: Seq<char>| instructor_entry_name(p)).push(instructor_entry_name(pv[i as int])));
        }
        r.push(s);
        i += 1;
    }
    assert(pv.take(pv.len() as int) =~= pv);
    r
}

/// Removes duplicate names from the list of instructors that are given.
///
/// # Parameters
/// - `instructors`: The instructors, potentially with duplicates.
///
/// # Returns
/// A vector of instructors, sorted, with no duplicates.
pub fn get_all_instructors(instructors: Vec<String>) -> (r: Vec<String>)
    ensures
        strictly_sorted(strs_view(r@)),
        strs_view(r@).to_set() == strs_view(instructors@).to_set(),
        strs_view(r@) == sorted_unique(strs_view(instructors@)),
{
    let ghost iv = strs_view(instructors@);
    let mut cs: Vec<Vec<char>> = Vec::new();
    let mut i: usize = 0;
    while i < instructors.len()
        invariant
            i <= instructors@.len(),
            iv == strs_view(instructors@),
            chars_view(cs@) == iv.take(i as int),
        decreases instructors@.len() - i,
    {
        let c = str_chars(instructors[i].as_str());
        proof {
            crate::text::lemma_chars_view_push(cs@, c);
            assert(iv.take(i + 1) =~= iv.take(i as int).push(iv[i as int]));
            assert(iv[i as int] == instructors@[i as int]@);
        }
        cs.push(c);
        i += 1;
    }
    assert(iv.take(iv.len() as int) =~= iv);
    let sorted = sort_dedup_chars(cs);
    let mut r: Vec<String> = Vec::new();
    let mut j: usize = 0;
    while j < sorted.len()
        invariant
            j <= sorted@.len(),
            strs_view(r@) == chars_view(sorted@).take(j as int),
        decreases sorted@.len() - j,
    {
        let s = string_from_chars(sorted[j].as_slice());
        proof {
            lemma_strs_view_push(r@, s);
            assert(chars_view(sorted@).take(j + 1) =~= chars_view(sorted@).take(j as int).push(
                sorted@[j as int]@,
            ));
        }
        r.push(s);
        j += 1;
    }
    assert(chars_view(sorted@).take(sorted@.len() as int) =~= chars_view(sorted@));
    assert(chars_view(sorted@) =~= sorted@.map_values(|v: Vec<char>| v@));
    proof {
        lemma_sorted_unique_is(strs_view(r@), iv);
    }
    r
}

// ---------------------------------------------------------------------------
// Meeting type and date
// ---------------------------------------------------------------------------

/// What `char::is_numeric` returns for `c`: whether its Unicode general
/// category is one of those for numbers (`Nd`, `Nl`, `No`).
pub uninterp spec fn spec_is_numeric(c: char) -> bool;

/// `char::is_numeric`. Its result is named `spec_is_numeric`. As its
/// documentation says, a character is numeric when its general category is
/// one for numbers; the ASCII digits `0`–`9` are of the category `Nd`, so they
/// are numeric. The Unicode tables that decide other characters are not
/// stated here.
#[verifier::external_body]
pub(crate) fn char_is_numeric(c: char) -> (b: bool)
    ensures
        b == spec_is_numeric(c),
        is_digit(c) ==> b,
{
    c.is_numeric()
}

/// Whether a character is numeric: the ASCII digits are, and for the others
/// the Unicode general category decides (`spec_is_numeric`).
pub open spec fn numeric_char(c: char) -> bool {
    if is_digit(c) {
        true
    } else {
        spec_is_numeric(c)
    }
}

/// Whether a meeting's special-meeting code marks a one-time meeting: it is
/// neither blank nor `TBA`.
pub open spec fn is_special_code(special: Seq<char>) -> bool {
    trim(special).len() > 0 && trim(special) != seq!['T', 'B', 'A']
}

/// The inputs on which [`parse_meeting_type_date`] returns: a one-time
/// meeting has a section start date, and a regular meeting's trimmed day code
/// is all numeric characters.
pub open spec fn meeting_type_date_defined(m: RawWebRegMeeting) -> bool {
    if is_special_code(m.special_meeting@) {
        m.section_start_date@.len() > 0
    } else {
        forall|i: int|
            0 <= i < trim(m.day_code@).len() ==> numeric_char(#[trigger] trim(m.day_code@)[i])
    }
}

/// The meeting type and days of a meeting: a one-time meeting (one with a
/// special-meeting code) has that code as its type and its start date as its
/// day; any other has its trimmed meeting type, and its day codes, or no day
/// when its day code is blank.
pub open spec fn spec_meeting_type_date(m: RawWebRegMeeting) -> (Seq<char>, MeetingDayView) {
    if is_special_code(m.special_meeting@) {
        (trim(m.special_meeting@), MeetingDayView::OneTime(m.start_date@))
    } else if trim(m.day_code@).len() == 0 {
        (trim(m.meeting_type@), MeetingDayView::NoMeeting)
    } else {
        (trim(m.meeting_type@), MeetingDayView::Repeated(spec_day_codes(trim(m.day_code@))))
    }
}

/// Whether the characters are a special-meeting code.
pub fn special_code_chars(special: &[char]) -> (r: bool)
    requires
        special@ == trim(special@),
    ensures
        r == (special@.len() > 0 && special@ != seq!['T', 'B', 'A']),
{
    proof {
        reveal_strlit("TBA");
        assert("TBA"@ =~= seq!['T', 'B', 'A']);
    }
    special.len() > 0 && !chars_eq_str(special, "TBA")
}

/// Gets the meeting type (e.g. Lecture, Final Exam, Discussion, etc.) and the meeting time from
/// an arbitrary `WebRegMeeting`.
///
/// # Parameters
/// - `w_meeting`: The WebReg meeting to check.
///
/// # Returns
/// A tuple where:
/// - the first element is the meeting type
/// - the second element is/are the day(s) that this meeting occurs
pub fn parse_meeting_type_date(w_meeting: &RawWebRegMeeting) -> (r: (String, MeetingDay))
    requires
        meeting_type_date_defined(*w_meeting),
    ensures
        (r.0@, r.1@) == spec_meeting_type_date(*w_meeting),
{
    let special = trimmed(w_meeting.special_meeting.as_str());
    proof {
        crate::text::lemma_trim_idempotent(w_meeting.special_meeting@);
    }
    if special_code_chars(special.as_slice()) {
        return (string_from_chars(special.as_slice()), MeetingDay::OneTime(copy_string(w_meeting.start_date.as_str())));
    }
    let regular = trimmed(w_meeting.meeting_type.as_str());
    let day_code = trimmed(w_meeting.day_code.as_str());
    if day_code.len() == 0 {
        (string_from_chars(regular.as_slice()), MeetingDay::NoMeeting)
    } else {
        let days = day_codes_of(day_code.as_slice());
        (string_from_chars(regular.as_slice()), MeetingDay::Repeated(days))
    }
}

/// Checks that a meeting is one that [`parse_meeting_type_date`] accepts.
pub fn meeting_type_date_ok(w_meeting: &RawWebRegMeeting) -> (r: bool)
    ensures
        r == meeting_type_date_defined(*w_meeting),
{
    let special = trimmed(w_meeting.special_meeting.as_str());
    proof {
        crate::text::lemma_trim_idempotent(w_meeting.special_meeting@);
    }
    if special_code_chars(special.as_slice()) {
        return !w_meeting.section_start_date.as_str().is_empty();
    }
    let day_code = trimmed(w_meeting.day_code.as_str());
    let mut i: usize = 0;
    while i < day_code.len()
        invariant
            i <= day_code@.len(),
            day_code@ == trim(w_meeting.day_code@),
            !is_special_code(w_meeting.special_meeting@),
            forall|j: int| 0 <= j < i ==> numeric_char(#[trigger] day_code@[j]),
        decreases day_code@.len() - i,
    {
        if !char_is_numeric(day_code[i]) {
            assert(!numeric_char(trim(w_meeting.day_code@)[i as int]));
            return false;
        }
        i += 1;
    }
    true
}

/// Gets the meeting type and the meeting time, or `None` for a meeting that
/// [`parse_meeting_type_date`] does not accept.
pub fn try_parse_meeting_type_date(w_meeting: &RawWebRegMeeting) -> (r: Option<(String, MeetingDay)>)
    ensures
        r is None <==> !meeting_type_date_defined(*w_meeting),
        r matches Some(v) ==> (v.0@, v.1@) == spec_meeting_type_date(*w_meeting),
{
    if meeting_type_date_ok(w_meeting) {
        Some(parse_meeting_type_date(w_meeting))
    } else {
        None
    }
}

} // verus!

verus! {

/// The two ASCII digits of a year `0 <= y <= 99`, as bytes.
pub open spec fn two_digit_year(y: int) -> Seq<u8> {
    seq![(48 + y / 10) as u8, (48 + y % 10) as u8]
}

proof fn lemma_parse_two_digits(y: int)
    requires
        0 <= y <= 99,
    ensures
        spec_parse_i64(seq![two_digit_year(y)[0] as char, two_digit_year(y)[1] as char]) == Some(y),
{
    let s = seq![two_digit_year(y)[0] as char, two_digit_year(y)[1] as char];
    assert(s[0] == ((48 + y / 10) as u8) as char);
    assert(s[0] as int == 48 + y / 10);
    assert(s[1] as int == 48 + y % 10);
    assert(is_digit(s[0]) && is_digit(s[1]));
    assert(all_digits(s));
    let t = s.drop_last();
    assert(t.len() == 1 && t.last() == s[0]);
    assert(t.drop_last() =~= Seq::<char>::empty());
    assert(digits_value(t.drop_last()) == 0);
    assert(crate::text::digit_value(s[0]) == y / 10);
    assert(digits_value(t) == y / 10);
    assert(digits_value(s) == (y / 10) * 10 + y % 10);
}

/// Terms of one kind a year apart have term IDs 70 apart (`FA22` is 5250,
/// `FA23` is 5320).
pub proof fn lemma_term_years_apart(a: u8, b: u8, y: int)
    requires
        term_base(a, b) is Some,
        0 <= y < 99,
    ensures
        spec_term_seq_id(seq![a, b] + two_digit_year(y + 1)) == spec_term_seq_id(seq![a, b] + two_digit_year(y)) + 70,
{
    let s0 = seq![a, b] + two_digit_year(y);
    let s1 = seq![a, b] + two_digit_year(y + 1);
    lemma_parse_two_digits(y);
    lemma_parse_two_digits(y + 1);
    assert(s0[2] == two_digit_year(y)[0] && s0[3] == two_digit_year(y)[1]);
    assert(s1[2] == two_digit_year(y + 1)[0] && s1[3] == two_digit_year(y + 1)[1]);
    assert(s0[0] == a && s0[1] == b && s1[0] == a && s1[1] == b);
}

} // verus!
