//! Character-level text handling: the model of strings as sequences of
//! characters, and the few conversions between `String`s and `Vec<char>`s that
//! the rest of the library builds on.
use vstd::prelude::*;

verus! {

// ---------------------------------------------------------------------------
// Character classes
// ---------------------------------------------------------------------------

/// Unicode `White_Space`, the class that `char::is_whitespace` tests.
pub open spec fn is_ws(c: char) -> bool {
    ||| ('\u{9}' <= c && c <= '\u{d}')
    ||| c == ' '
    ||| c == '\u{85}'
    ||| c == '\u{a0}'
    ||| c == '\u{1680}'
    ||| ('\u{2000}' <= c && c <= '\u{200a}')
    ||| c == '\u{2028}'
    ||| c == '\u{2029}'
    ||| c == '\u{202f}'
    ||| c == '\u{205f}'
    ||| c == '\u{3000}'
}

/// ASCII decimal digit, the class that `char::is_ascii_digit` tests.
pub open spec fn is_digit(c: char) -> bool {
    '0' <= c && c <= '9'
}

/// The value of an ASCII decimal digit.
pub open spec fn digit_value(c: char) -> int {
    (c as int) - ('0' as int)
}

/// The character of the decimal digit `d` (`0 <= d < 10`).
pub open spec fn digit_char(d: int) -> char {
    (d + ('0' as int)) as char
}

pub fn char_is_whitespace(c: char) -> (b: bool)
    ensures
        b == is_ws(c),
{
    ('\u{9}' <= c && c <= '\u{d}') || c == ' ' || c == '\u{85}' || c == '\u{a0}' || c
        == '\u{1680}' || ('\u{2000}' <= c && c <= '\u{200a}') || c == '\u{2028}' || c
        == '\u{2029}' || c == '\u{202f}' || c == '\u{205f}' || c == '\u{3000}'
}

pub fn char_is_digit(c: char) -> (b: bool)
    ensures
        b == is_digit(c),
{
    '0' <= c && c <= '9'
}

// ---------------------------------------------------------------------------
// Conversions between strings and character vectors
// ---------------------------------------------------------------------------

/// Collects the characters of `s` into a vector.
pub fn str_chars(s: &str) -> (v: Vec<char>)
    ensures
        v@ == s@,
{
    let mut v: Vec<char> = Vec::new();
    for c in it: s.chars()
        invariant
            v@ == it.seq().take(it.index() as int),
    {
        v.push(c);
    }
    v
}

/// `String::push`: appends one character.
#[verifier::external_body]
fn string_push(s: &mut String, c: char)
    ensures
        final(s)@ == old(s)@.push(c),
{
    s.push(c);
}

/// Builds a `String` holding exactly the characters of `v`.
pub fn string_from_chars(v: &[char]) -> (s: String)
    ensures
        s@ == v@,
{
    let mut s = String::new();
    let mut i: usize = 0;
    while i < v.len()
        invariant
            i <= v@.len(),
            s@ == v@.take(i as int),
        decreases v@.len() - i,
    {
        string_push(&mut s, v[i]);
        assert(v@.take(i as int).push(v@[i as int]) =~= v@.take(i + 1));
        i += 1;
    }
    assert(v@.take(v@.len() as int) =~= v@);
    s
}

/// Copies a string.
pub fn copy_string(s: &str) -> (r: String)
    ensures
        r@ == s@,
{
    let v = str_chars(s);
    string_from_chars(v.as_slice())
}

/// The characters of `s` from position `start` on.
pub fn chars_slice_from(s: &[char], start: usize) -> (r: Vec<char>)
    requires
        start <= s@.len(),
    ensures
        r@ == s@.skip(start as int),
{
    let mut r: Vec<char> = Vec::new();
    let mut i: usize = start;
    while i < s.len()
        invariant
            start <= i <= s@.len(),
            r@ == s@.subrange(start as int, i as int),
        decreases s@.len() - i,
    {
        r.push(s[i]);
        assert(s@.subrange(start as int, i + 1) =~= s@.subrange(start as int, i as int).push(s@[i as int]));
        i += 1;
    }
    assert(s@.subrange(start as int, s@.len() as int) =~= s@.skip(start as int));
    r
}

/// Appends the characters of `src` to `dst`.
pub fn extend_chars(dst: &mut Vec<char>, src: &[char])
    ensures
        final(dst)@ == old(dst)@ + src@,
{
    let mut i: usize = 0;
    while i < src.len()
        invariant
            i <= src@.len(),
            dst@ == old(dst)@ + src@.take(i as int),
        decreases src@.len() - i,
    {
        dst.push(src[i]);
        assert(old(dst)@ + src@.take(i + 1) =~= old(dst)@ + src@.take(i as int) + seq![src@[i as int]]);
        i += 1;
    }
    assert(src@.take(src@.len() as int) =~= src@);
}

/// Whether two character slices are equal.
pub fn chars_eq(a: &[char], b: &[char]) -> (r: bool)
    ensures
        r == (a@ == b@),
{
    if a.len() != b.len() {
        return false;
    }
    let mut i: usize = 0;
    while i < a.len()
        invariant
            a@.len() == b@.len(),
            i <= a@.len(),
            forall|j: int| 0 <= j < i ==> a@[j] == b@[j],
        decreases a@.len() - i,
    {
        if a[i] != b[i] {
            return false;
        }
        i += 1;
    }
    assert(a@ =~= b@);
    true
}

/// Whether the characters of `a` spell the string `b`.
pub fn chars_eq_str(a: &[char], b: &str) -> (r: bool)
    ensures
        r == (a@ == b@),
{
    let bv = str_chars(b);
    chars_eq(a, bv.as_slice())
}

/// Whether two strings hold the same characters.
pub fn str_eq(a: &str, b: &str) -> (r: bool)
    ensures
        r == (a@ == b@),
{
    let av = str_chars(a);
    chars_eq_str(av.as_slice(), b)
}

// ---------------------------------------------------------------------------
// Trimming
// ---------------------------------------------------------------------------

/// `s` without its leading white space.
pub open spec fn trim_start(s: Seq<char>) -> Seq<char>
    decreases s.len(),
{
    if s.len() > 0 && is_ws(s[0]) {
        trim_start(s.drop_first())
    } else {
        s
    }
}

/// `s` without its trailing white space.
pub open spec fn trim_end(s: Seq<char>) -> Seq<char>
    decreases s.len(),
{
    if s.len() > 0 && is_ws(s.last()) {
        trim_end(s.drop_last())
    } else {
        s
    }
}

/// `s` without leading and trailing white space, as `str::trim` gives it.
pub open spec fn trim(s: Seq<char>) -> Seq<char> {
    trim_end(trim_start(s))
}

pub proof fn lemma_trim_start_skip(s: Seq<char>, a: int)
    requires
        0 <= a <= s.len(),
        forall|j: int| 0 <= j < a ==> is_ws(#[trigger] s[j]),
    ensures
        trim_start(s) == trim_start(s.skip(a)),
    decreases a,
{
    if a > 0 {
        assert(s.drop_first().skip(a - 1) =~= s.skip(a));
        lemma_trim_start_skip(s.drop_first(), a - 1);
    } else {
        assert(s.skip(0) =~= s);
    }
}

pub proof fn lemma_trim_end_take(s: Seq<char>, b: int)
    requires
        0 <= b <= s.len(),
        forall|j: int| b <= j < s.len() ==> is_ws(#[trigger] s[j]),
    ensures
        trim_end(s) == trim_end(s.take(b)),
    decreases s.len() - b,
{
    if b < s.len() {
        assert(s.drop_last().take(b) =~= s.take(b));
        lemma_trim_end_take(s.drop_last(), b);
    } else {
        assert(s.take(b) =~= s);
    }
}

/// The trimmed form of `s`, as `str::trim` gives it.
pub fn trim_chars(s: &[char]) -> (r: Vec<char>)
    ensures
        r@ == trim(s@),
{
    let mut a: usize = 0;
    while a < s.len() && char_is_whitespace(s[a])
        invariant
            a <= s@.len(),
            forall|j: int| 0 <= j < a ==> is_ws(#[trigger] s@[j]),
        decreases s@.len() - a,
    {
        a += 1;
    }
    proof {
        lemma_trim_start_skip(s@, a as int);
    }
    let mut b: usize = s.len();
    while b > a && char_is_whitespace(s[b - 1])
        invariant
            a <= b <= s@.len(),
            forall|j: int| b <= j < s@.len() ==> is_ws(#[trigger] s@[j]),
        decreases b,
    {
        b -= 1;
    }
    let ghost t = s@.skip(a as int);
    proof {
        if a < s@.len() {
            assert(!is_ws(t[0]));
        }
        assert(trim_start(t) == t);
        assert forall|j: int| b - a <= j < t.len() implies is_ws(#[trigger] t[j]) by {
            assert(t[j] == s@[j + a]);
        }
        lemma_trim_end_take(t, b - a);
        if b > a {
            assert(t.take(b - a).last() == s@[b - 1]);
        }
        assert(trim_end(t.take(b - a)) == t.take(b - a));
    }
    let mut r: Vec<char> = Vec::new();
    let mut i: usize = a;
    while i < b
        invariant
            a <= i <= b <= s@.len(),
            r@ == s@.subrange(a as int, i as int),
        decreases b - i,
    {
        r.push(s[i]);
        assert(s@.subrange(a as int, i + 1) =~= s@.subrange(a as int, i as int).push(s@[i as int]));
        i += 1;
    }
    assert(r@ =~= t.take(b - a));
    r
}

/// The trimmed characters of a string.
pub fn trimmed(s: &str) -> (r: Vec<char>)
    ensures
        r@ == trim(s@),
{
    let v = str_chars(s);
    trim_chars(v.as_slice())
}

/// The trimmed copy of a string, as `s.trim().to_string()` gives it.
pub fn trimmed_string(s: &str) -> (r: String)
    ensures
        r@ == trim(s@),
{
    let v = trimmed(s);
    string_from_chars(v.as_slice())
}

// ---------------------------------------------------------------------------
// Case mapping
// ---------------------------------------------------------------------------

/// What `str::to_uppercase` returns for `s`: the Unicode uppercase mapping.
pub uninterp spec fn spec_to_uppercase(s: Seq<char>) -> Seq<char>;

/// Every character is ASCII.
pub open spec fn is_ascii_text(s: Seq<char>) -> bool {
    forall|j: int| 0 <= j < s.len() ==> (#[trigger] s[j] as u32) < 128
}

/// The upper-case form of an ASCII character: `a`–`z` become `A`–`Z`, the rest is kept.
pub open spec fn ascii_upper_char(c: char) -> char {
    if 'a' <= c && c <= 'z' {
        ((c as int) - 32) as char
    } else {
        c
    }
}

/// The lower-case form of an ASCII character: `A`–`Z` become `a`–`z`, the rest is kept.
pub open spec fn ascii_lower_char(c: char) -> char {
    if 'A' <= c && c <= 'Z' {
        ((c as int) + 32) as char
    } else {
        c
    }
}

/// `s` with `a`–`z` made `A`–`Z`.
pub open spec fn ascii_upper(s: Seq<char>) -> Seq<char> {
    s.map_values(|c: char| ascii_upper_char(c))
}

/// `s` with `A`–`Z` made `a`–`z`, as `str::to_ascii_lowercase` gives it.
pub open spec fn ascii_lower(s: Seq<char>) -> Seq<char> {
    s.map_values(|c: char| ascii_lower_char(c))
}

/// The upper-case form of a string: for ASCII text, `a`–`z` become `A`–`Z`
/// and the rest is kept; for other text, the Unicode mapping that
/// `str::to_uppercase` applies.
pub open spec fn upper_text(s: Seq<char>) -> Seq<char> {
    if is_ascii_text(s) {
        ascii_upper(s)
    } else {
        spec_to_uppercase(s)
    }
}

/// `str::to_uppercase`. Its result is a function of the string's characters
/// alone, named `spec_to_uppercase`. Upper case is, as its documentation
/// says, the Unicode Derived Core Property `Uppercase`, under which the only
/// ASCII characters with an upper-case form are `a`–`z` (`A`–`Z`); so ASCII
/// text comes back with `a`–`z` made `A`–`Z` and every other character kept.
/// For other text, what the Unicode tables give is not stated here.
#[verifier::external_body]
pub(crate) fn to_uppercase(s: &str) -> (r: String)
    ensures
        r@ == spec_to_uppercase(s@),
        is_ascii_text(s@) ==> r@ == ascii_upper(s@),
{
    s.to_uppercase()
}

/// The upper-case form of `s`.
pub fn uppercase(s: &str) -> (r: String)
    ensures
        r@ == upper_text(s@),
{
    to_uppercase(s)
}

/// Upper-casing ASCII text goes character by character.
pub proof fn lemma_ascii_upper_concat(a: Seq<char>, b: Seq<char>)
    ensures
        ascii_upper(a + b) == ascii_upper(a) + ascii_upper(b),
        ascii_lower(a + b) == ascii_lower(a) + ascii_lower(b),
        ascii_upper(a).len() == a.len(),
        is_ascii_text(a) && is_ascii_text(b) ==> is_ascii_text(a + b),
{
    assert(ascii_upper(a + b) =~= ascii_upper(a) + ascii_upper(b));
    assert(ascii_lower(a + b) =~= ascii_lower(a) + ascii_lower(b));
    if is_ascii_text(a) && is_ascii_text(b) {
        assert forall|j: int| 0 <= j < (a + b).len() implies (#[trigger] (a + b)[j] as u32) < 128 by {
            if j < a.len() {
                assert((a + b)[j] == a[j]);
            } else {
                assert((a + b)[j] == b[j - a.len()]);
            }
        }
    }
}

} // verus!

verus! {

// ---------------------------------------------------------------------------
// Splitting and joining
// ---------------------------------------------------------------------------

/// The pieces of `s` between occurrences of `sep`, as `str::split(sep)` gives
/// them (empty pieces included; one empty piece for the empty string).
pub open spec fn split_char(s: Seq<char>, sep: char) -> Seq<Seq<char>>
    decreases s.len(),
{
    if s.len() == 0 {
        seq![Seq::empty()]
    } else {
        let p = split_char(s.drop_last(), sep);
        if s.last() == sep {
            p.push(Seq::empty())
        } else {
            p.update(p.len() - 1, p.last().push(s.last()))
        }
    }
}

pub proof fn lemma_split_char_nonempty(s: Seq<char>, sep: char)
    ensures
        split_char(s, sep).len() >= 1,
    decreases s.len(),
{
    if s.len() > 0 {
        lemma_split_char_nonempty(s.drop_last(), sep);
    }
}

/// The character vectors' contents.
pub open spec fn chars_view(v: Seq<Vec<char>>) -> Seq<Seq<char>> {
    v.map_values(|x: Vec<char>| x@)
}

pub proof fn lemma_chars_view_push(v: Seq<Vec<char>>, x: Vec<char>)
    ensures
        chars_view(v.push(x)) == chars_view(v).push(x@),
{
    assert(chars_view(v.push(x)) =~= chars_view(v).push(x@));
}

/// Splits `s` at every `sep`, as `str::split(sep)` does.
pub fn split_chars(s: &[char], sep: char) -> (r: Vec<Vec<char>>)
    ensures
        chars_view(r@) == split_char(s@, sep),
{
    let mut pieces: Vec<Vec<char>> = Vec::new();
    let mut cur: Vec<char> = Vec::new();
    let mut i: usize = 0;
    assert(s@.take(0) =~= Seq::<char>::empty());
    assert(chars_view(pieces@).push(cur@) =~= seq![Seq::<char>::empty()]);
    while i < s.len()
        invariant
            i <= s@.len(),
            chars_view(pieces@).push(cur@) == split_char(s@.take(i as int), sep),
        decreases s@.len() - i,
    {
        let c = s[i];
        let ghost t = s@.take(i + 1);
        assert(t.drop_last() =~= s@.take(i as int));
        assert(t.last() == c);
        proof {
            lemma_split_char_nonempty(s@.take(i as int), sep);
        }
        if c == sep {
            let done = cur;
            pieces.push(done);
            cur = Vec::new();
            assert(chars_view(pieces@).push(cur@) =~= split_char(t, sep));
        } else {
            let ghost before = chars_view(pieces@).push(cur@);
            cur.push(c);
            assert(chars_view(pieces@).push(cur@) =~= before.update(
                before.len() - 1,
                before.last().push(c),
            ));
        }
        i += 1;
    }
    assert(s@.take(s@.len() as int) =~= s@);
    pieces.push(cur);
    assert(chars_view(pieces@) =~= split_char(s@, sep));
    pieces
}

/// The characters of `s` before the first `c` (all of `s` if it holds none).
pub open spec fn before_char(s: Seq<char>, c: char) -> Seq<char>
    decreases s.len(),
{
    if s.len() == 0 {
        s
    } else if s[0] == c {
        Seq::empty()
    } else {
        seq![s[0]] + before_char(s.drop_first(), c)
    }
}

pub proof fn lemma_before_char_take(s: Seq<char>, c: char, k: int)
    requires
        0 <= k <= s.len(),
        forall|j: int| 0 <= j < k ==> s[j] != c,
        k == s.len() || s[k] == c,
    ensures
        before_char(s, c) == s.take(k),
    decreases k,
{
    if k == 0 {
        assert(s.take(0) =~= Seq::<char>::empty());
    } else {
        lemma_before_char_take(s.drop_first(), c, k - 1);
        assert(s.take(k) =~= seq![s[0]] + s.drop_first().take(k - 1));
    }
}

/// The characters before the first `c`.
pub fn chars_before(s: &[char], c: char) -> (r: Vec<char>)
    ensures
        r@ == before_char(s@, c),
{
    let mut r: Vec<char> = Vec::new();
    let mut i: usize = 0;
    while i < s.len() && s[i] != c
        invariant
            i <= s@.len(),
            r@ == s@.take(i as int),
            forall|j: int| 0 <= j < i ==> s@[j] != c,
        decreases s@.len() - i,
    {
        r.push(s[i]);
        assert(s@.take(i + 1) =~= s@.take(i as int).push(s@[i as int]));
        i += 1;
    }
    proof {
        lemma_before_char_take(s@, c, i as int);
    }
    r
}

/// `parts` joined with `sep` between each two, as `[..].join(sep)` gives it.
pub open spec fn join(parts: Seq<Seq<char>>, sep: Seq<char>) -> Seq<char>
    decreases parts.len(),
{
    if parts.len() == 0 {
        Seq::empty()
    } else if parts.len() == 1 {
        parts[0]
    } else {
        join(parts.drop_last(), sep) + sep + parts.last()
    }
}

/// Appends to `out`, the join of `count` parts with `sep`, one more part.
pub fn join_push(out: &mut Vec<char>, count: usize, sep: &[char], part: &[char])
    ensures
        final(out)@ == if count == 0 { part@ } else { old(out)@ + sep@ + part@ },
{
    if count == 0 {
        out.clear();
    } else {
        extend_chars(out, sep);
    }
    extend_chars(out, part);
    proof {
        if count == 0 {
            assert(final(out)@ =~= part@);
        }
    }
}

pub proof fn lemma_join_push(parts: Seq<Seq<char>>, sep: Seq<char>, p: Seq<char>)
    ensures
        join(parts.push(p), sep) == if parts.len() == 0 { p } else { join(parts, sep) + sep + p },
{
    assert(parts.push(p).drop_last() =~= parts);
    if parts.len() == 0 {
        assert(parts.push(p)[0] == p);
    }
}

/// The white-space separated words of `s`, as `str::split_whitespace` gives
/// them: the words finished so far, and the word under way.
pub open spec fn words_acc(s: Seq<char>) -> (Seq<Seq<char>>, Seq<char>)
    decreases s.len(),
{
    if s.len() == 0 {
        (Seq::empty(), Seq::empty())
    } else {
        let (w, cur) = words_acc(s.drop_last());
        if is_ws(s.last()) {
            if cur.len() > 0 {
                (w.push(cur), Seq::empty())
            } else {
                (w, Seq::empty())
            }
        } else {
            (w, cur.push(s.last()))
        }
    }
}

/// The white-space separated words of `s`, as `str::split_whitespace` gives them.
pub open spec fn words(s: Seq<char>) -> Seq<Seq<char>> {
    let (w, cur) = words_acc(s);
    if cur.len() > 0 {
        w.push(cur)
    } else {
        w
    }
}

/// Splits `s` into its white-space separated words.
pub fn split_words(s: &[char]) -> (r: Vec<Vec<char>>)
    ensures
        chars_view(r@) == words(s@),
{
    let mut w: Vec<Vec<char>> = Vec::new();
    let mut cur: Vec<char> = Vec::new();
    let mut i: usize = 0;
    assert(s@.take(0) =~= Seq::<char>::empty());
    assert(chars_view(w@) =~= Seq::<Seq<char>>::empty());
    while i < s.len()
        invariant
            i <= s@.len(),
            (chars_view(w@), cur@) == words_acc(s@.take(i as int)),
        decreases s@.len() - i,
    {
        let c = s[i];
        let ghost t = s@.take(i + 1);
        assert(t.drop_last() =~= s@.take(i as int));
        assert(t.last() == c);
        if char_is_whitespace(c) {
            if cur.len() > 0 {
                let done = cur;
                w.push(done);
                assert(chars_view(w@) =~= words_acc(s@.take(i as int)).0.push(done@));
            }
            cur = Vec::new();
            assert(cur@ =~= Seq::<char>::empty());
        } else {
            cur.push(c);
        }
        i += 1;
    }
    assert(s@.take(s@.len() as int) =~= s@);
    if cur.len() > 0 {
        let done = cur;
        w.push(done);
        assert(chars_view(w@) =~= words_acc(s@).0.push(done@));
    }
    w
}

} // verus!

verus! {

pub proof fn lemma_trim_start_first(s: Seq<char>)
    ensures
        trim_start(s).len() > 0 ==> !is_ws(trim_start(s)[0]),
    decreases s.len(),
{
    if s.len() > 0 && is_ws(s[0]) {
        lemma_trim_start_first(s.drop_first());
    }
}

pub proof fn lemma_trim_end_ends(s: Seq<char>)
    ensures
        trim_end(s).len() > 0 ==> !is_ws(trim_end(s).last()),
        trim_end(s).len() > 0 ==> trim_end(s)[0] == s[0],
    decreases s.len(),
{
    if s.len() > 0 && is_ws(s.last()) {
        lemma_trim_end_ends(s.drop_last());
    }
}

/// Trimming twice is trimming once.
pub proof fn lemma_trim_idempotent(s: Seq<char>)
    ensures
        trim(trim(s)) == trim(s),
{
    let t = trim(s);
    lemma_trim_start_first(s);
    lemma_trim_end_ends(trim_start(s));
    assert(trim_start(t) == t);
    assert(trim_end(t) == t);
}

/// Joining the parts of two lists is joining the joins of the two, with the
/// separator between them when both lists hold parts.
pub proof fn lemma_join_concat(a: Seq<Seq<char>>, b: Seq<Seq<char>>, sep: Seq<char>)
    ensures
        join(a + b, sep) == if a.len() == 0 {
            join(b, sep)
        } else if b.len() == 0 {
            join(a, sep)
        } else {
            join(a, sep) + sep + join(b, sep)
        },
    decreases b.len(),
{
    if b.len() == 0 {
        assert(a + b =~= a);
    } else if a.len() == 0 {
        assert(a + b =~= b);
    } else {
        lemma_join_concat(a, b.drop_last(), sep);
        assert((a + b).drop_last() =~= a + b.drop_last());
        assert((a + b).last() == b.last());
        if b.len() == 1 {
            assert(a + b.drop_last() =~= a);
            assert(join(b, sep) == b[0]);
        } else {
            assert(join(a, sep) + sep + join(b.drop_last(), sep) + sep + b.last() =~= join(a, sep) + sep + (
            join(b.drop_last(), sep) + sep + b.last()));
        }
    }
}

/// A join of non-empty parts is empty exactly when there are no parts.
pub proof fn lemma_join_nonempty(parts: Seq<Seq<char>>, sep: Seq<char>)
    requires
        forall|i: int| 0 <= i < parts.len() ==> #[trigger] parts[i].len() > 0,
    ensures
        join(parts, sep).len() == 0 <==> parts.len() == 0,
{
    if parts.len() > 1 {
        assert(parts.last() == parts[parts.len() - 1]);
    }
}

/// White space only: every character is white space.
pub open spec fn is_blank(s: Seq<char>) -> bool {
    forall|j: int| 0 <= j < s.len() ==> is_ws(#[trigger] s[j])
}

proof fn lemma_words_acc_facts(s: Seq<char>)
    ensures
        forall|i: int| 0 <= i < words_acc(s).0.len() ==> #[trigger] words_acc(s).0[i].len() > 0,
        (words_acc(s).0.len() == 0 && words_acc(s).1.len() == 0) <==> is_blank(s),
    decreases s.len(),
{
    if s.len() > 0 {
        let t = s.drop_last();
        lemma_words_acc_facts(t);
        if is_blank(t) && is_ws(s.last()) {
            assert forall|j: int| 0 <= j < s.len() implies is_ws(#[trigger] s[j]) by {
                if j < s.len() - 1 {
                    assert(s[j] == t[j]);
                }
            }
        }
        if is_blank(s) {
            assert forall|j: int| 0 <= j < t.len() implies is_ws(#[trigger] t[j]) by {
                assert(s[j] == t[j]);
            }
            assert(is_ws(s[s.len() - 1]));
        }
        let (w, cur) = words_acc(t);
        if is_ws(s.last()) && cur.len() > 0 {
            assert forall|i: int| 0 <= i < w.push(cur).len() implies #[trigger] w.push(cur)[i].len() > 0 by {
                if i < w.len() {
                    assert(w.push(cur)[i] == w[i]);
                }
            }
        }
    }
}

/// The words of `s` are non-empty, and there are none exactly when `s` is
/// white space only.
pub proof fn lemma_words_nonempty(s: Seq<char>)
    ensures
        forall|i: int| 0 <= i < words(s).len() ==> #[trigger] words(s)[i].len() > 0,
        words(s).len() == 0 <==> is_blank(s),
{
    lemma_words_acc_facts(s);
    let (w, cur) = words_acc(s);
    if cur.len() > 0 {
        assert forall|i: int| 0 <= i < w.push(cur).len() implies #[trigger] w.push(cur)[i].len() > 0 by {
            if i < w.len() {
                assert(w.push(cur)[i] == w[i]);
            }
        }
    }
}

proof fn lemma_words_acc_extend(p: Seq<char>, x: Seq<char>)
    requires
        forall|j: int| 0 <= j < x.len() ==> !is_ws(#[trigger] x[j]),
    ensures
        words_acc(p + x) == (words_acc(p).0, words_acc(p).1 + x),
    decreases x.len(),
{
    if x.len() == 0 {
        assert(p + x =~= p);
        assert(words_acc(p).1 + x =~= words_acc(p).1);
    } else {
        let y = x.drop_last();
        assert forall|j: int| 0 <= j < y.len() implies !is_ws(#[trigger] y[j]) by {
            assert(y[j] == x[j]);
        }
        lemma_words_acc_extend(p, y);
        assert((p + x).drop_last() =~= p + y);
        assert((p + x).last() == x[x.len() - 1]);
        assert((words_acc(p).1 + y).push(x.last()) =~= words_acc(p).1 + x);
    }
}

/// Two runs of characters that are not white space make two words with one
/// space between them, and one word without it.
pub proof fn lemma_words_two(a: Seq<char>, b: Seq<char>)
    requires
        a.len() > 0,
        b.len() > 0,
        forall|j: int| 0 <= j < a.len() ==> !is_ws(#[trigger] a[j]),
        forall|j: int| 0 <= j < b.len() ==> !is_ws(#[trigger] b[j]),
    ensures
        words(a + seq![' '] + b) == seq![a, b],
        words(a + b) == seq![a + b],
{
    let e = Seq::<char>::empty();
    assert(words_acc(e) == (Seq::<Seq<char>>::empty(), e));
    lemma_words_acc_extend(e, a);
    assert(e + a =~= a);
    let p = a + seq![' '];
    assert(p.drop_last() =~= a);
    assert(p.last() == ' ');
    assert(words_acc(p) == (Seq::<Seq<char>>::empty().push(a), e));
    lemma_words_acc_extend(p, b);
    assert(e + b =~= b);
    assert(Seq::<Seq<char>>::empty().push(a).push(b) =~= seq![a, b]);
    let ab = a + b;
    assert forall|j: int| 0 <= j < ab.len() implies !is_ws(#[trigger] ab[j]) by {
        if j < a.len() {
            assert(ab[j] == a[j]);
        } else {
            assert(ab[j] == b[j - a.len()]);
        }
    }
    lemma_words_acc_extend(e, ab);
    assert(e + ab =~= ab);
    assert(Seq::<Seq<char>>::empty().push(ab) =~= seq![ab]);
}

/// A join of ASCII parts with an ASCII separator is ASCII.
pub proof fn lemma_join_ascii(parts: Seq<Seq<char>>, sep: Seq<char>)
    requires
        is_ascii_text(sep),
        forall|i: int| 0 <= i < parts.len() ==> is_ascii_text(#[trigger] parts[i]),
    ensures
        is_ascii_text(join(parts, sep)),
    decreases parts.len(),
{
    if parts.len() > 1 {
        let p = parts.drop_last();
        assert forall|i: int| 0 <= i < p.len() implies is_ascii_text(#[trigger] p[i]) by {
            assert(p[i] == parts[i]);
        }
        lemma_join_ascii(p, sep);
        assert(is_ascii_text(parts[parts.len() - 1]));
        lemma_ascii_upper_concat(join(p, sep), sep);
        lemma_ascii_upper_concat(join(p, sep) + sep, parts.last());
    } else if parts.len() == 1 {
        assert(is_ascii_text(parts[0]));
    }
}

proof fn lemma_words_acc_ascii(s: Seq<char>)
    requires
        is_ascii_text(s),
    ensures
        forall|i: int| 0 <= i < words_acc(s).0.len() ==> is_ascii_text(#[trigger] words_acc(s).0[i]),
        is_ascii_text(words_acc(s).1),
    decreases s.len(),
{
    if s.len() > 0 {
        let t = s.drop_last();
        assert forall|j: int| 0 <= j < t.len() implies (#[trigger] t[j] as u32) < 128 by {
            assert(t[j] == s[j]);
        }
        lemma_words_acc_ascii(t);
        let (w, cur) = words_acc(t);
        assert((s[s.len() - 1] as u32) < 128);
        if is_ws(s.last()) {
            if cur.len() > 0 {
                assert forall|i: int| 0 <= i < w.push(cur).len() implies is_ascii_text(#[trigger] w.push(cur)[i]) by {
                    if i < w.len() {
                        assert(w.push(cur)[i] == w[i]);
                    }
                }
            }
        } else {
            assert forall|j: int| 0 <= j < cur.push(s.last()).len() implies (#[trigger] cur.push(s.last())[j] as u32)
                < 128 by {
                if j < cur.len() {
                    assert(cur.push(s.last())[j] == cur[j]);
                }
            }
        }
    }
}

/// The words of ASCII text are ASCII.
pub proof fn lemma_words_ascii(s: Seq<char>)
    requires
        is_ascii_text(s),
    ensures
        forall|i: int| 0 <= i < words(s).len() ==> is_ascii_text(#[trigger] words(s)[i]),
{
    lemma_words_acc_ascii(s);
    let (w, cur) = words_acc(s);
    if cur.len() > 0 {
        assert forall|i: int| 0 <= i < w.push(cur).len() implies is_ascii_text(#[trigger] w.push(cur)[i]) by {
            if i < w.len() {
                assert(w.push(cur)[i] == w[i]);
            }
        }
    }
}

} // verus!
