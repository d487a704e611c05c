//! Decimal notation of integers: rendering them as text and reading them back.
use vstd::prelude::*;
use crate::text::{char_is_digit, digit_char, digit_value, extend_chars, is_digit, string_from_chars};

verus! {

/// The decimal digits of `n`, without leading zeros (`"0"` for zero).
pub open spec fn nat_digits(n: nat) -> Seq<char>
    decreases n,
{
    if n < 10 {
        seq![digit_char(n as int)]
    } else {
        nat_digits(n / 10).push(digit_char((n % 10) as int))
    }
}

/// The binary digits of `n`, without leading zeros (`"0"` for zero), as the
/// format `{:b}` gives them.
pub open spec fn nat_bits(n: nat) -> Seq<char>
    decreases n,
{
    if n < 2 {
        seq![digit_char(n as int)]
    } else {
        nat_bits(n / 2).push(digit_char((n % 2) as int))
    }
}

/// The decimal notation of `i`, as `i.to_string()` gives it.
pub open spec fn int_decimal(i: int) -> Seq<char> {
    if i < 0 {
        seq!['-'] + nat_digits((-i) as nat)
    } else {
        nat_digits(i as nat)
    }
}

/// `s` padded on the left with `'0'`s to at least `width` characters, as the
/// format `{:0>width}` gives it.
pub open spec fn zero_pad(s: Seq<char>, width: nat) -> Seq<char> {
    if s.len() < width {
        Seq::new((width - s.len()) as nat, |_i: int| '0') + s
    } else {
        s
    }
}

/// The value of a string of decimal digits (zero for the empty string).
pub open spec fn digits_value(s: Seq<char>) -> int
    decreases s.len(),
{
    if s.len() == 0 {
        0
    } else {
        digits_value(s.drop_last()) * 10 + digit_value(s.last())
    }
}

pub open spec fn all_digits(s: Seq<char>) -> bool {
    forall|i: int| 0 <= i < s.len() ==> is_digit(#[trigger] s[i])
}

/// What `str::parse::<i64>` accepts and gives: an optional sign, then one or
/// more decimal digits, whose value fits in an `i64`.
pub open spec fn spec_parse_i64(s: Seq<char>) -> Option<int> {
    if s.len() == 0 {
        None
    } else {
        let neg = s[0] == '-';
        let ds = if s[0] == '-' || s[0] == '+' { s.drop_first() } else { s };
        if ds.len() == 0 || !all_digits(ds) {
            None
        } else {
            let v = if neg { -digits_value(ds) } else { digits_value(ds) };
            if i64::MIN <= v <= i64::MAX {
                Some(v)
            } else {
                None
            }
        }
    }
}

fn digit_to_char(d: u8) -> (c: char)
    requires
        d < 10,
    ensures
        c == digit_char(d as int),
        is_digit(c),
{
    match d {
        0 => '0',
        1 => '1',
        2 => '2',
        3 => '3',
        4 => '4',
        5 => '5',
        6 => '6',
        7 => '7',
        8 => '8',
        _ => '9',
    }
}

/// The decimal digits of `n`.
pub fn u128_digits(n: u128) -> (r: Vec<char>)
    ensures
        r@ == nat_digits(n as nat),
    decreases n,
{
    if n < 10 {
        let c = digit_to_char(n as u8);
        let mut v: Vec<char> = Vec::new();
        v.push(c);
        assert(v@ =~= seq![digit_char(n as int)]);
        v
    } else {
        let mut v = u128_digits(n / 10);
        let c = digit_to_char((n % 10) as u8);
        v.push(c);
        v
    }
}

/// The binary digits of `n`.
pub fn u32_bits(n: u32) -> (r: Vec<char>)
    ensures
        r@ == nat_bits(n as nat),
    decreases n,
{
    if n < 2 {
        let c = digit_to_char(n as u8);
        let mut v: Vec<char> = Vec::new();
        v.push(c);
        assert(v@ =~= seq![digit_char(n as int)]);
        v
    } else {
        let mut v = u32_bits(n / 2);
        let c = digit_to_char((n % 2) as u8);
        v.push(c);
        v
    }
}

/// The decimal notation of `i`, as `i.to_string()` gives it.
pub fn i64_decimal(i: i64) -> (r: Vec<char>)
    ensures
        r@ == int_decimal(i as int),
{
    if i < 0 {
        let m: i128 = -(i as i128);
        let ds = u128_digits(m as u128);
        let mut r: Vec<char> = Vec::new();
        r.push('-');
        extend_chars(&mut r, ds.as_slice());
        assert(r@ =~= seq!['-'] + ds@);
        r
    } else {
        u128_digits(i as u128)
    }
}

/// The decimal notation of `i` as a `String`.
pub fn i64_to_string(i: i64) -> (r: String)
    ensures
        r@ == int_decimal(i as int),
{
    let v = i64_decimal(i);
    string_from_chars(v.as_slice())
}

/// `s` padded on the left with `'0'`s to at least `width` characters.
pub fn zero_pad_chars(s: &[char], width: usize) -> (r: Vec<char>)
    ensures
        r@ == zero_pad(s@, width as nat),
{
    let mut r: Vec<char> = Vec::new();
    if s.len() < width {
        let n = width - s.len();
        let mut i: usize = 0;
        while i < n
            invariant
                i <= n,
                r@ == Seq::new(i as nat, |_j: int| '0'),
            decreases n - i,
        {
            r.push('0');
            assert(r@ =~= Seq::new((i + 1) as nat, |_j: int| '0'));
            i += 1;
        }
    }
    extend_chars(&mut r, s);
    proof {
        if s@.len() >= width {
            assert(r@ =~= s@);
        }
    }
    r
}

pub proof fn lemma_digits_value_nonneg(s: Seq<char>)
    requires
        all_digits(s),
    ensures
        digits_value(s) >= 0,
    decreases s.len(),
{
    if s.len() > 0 {
        assert(all_digits(s.drop_last())) by {
            assert forall|i: int| 0 <= i < s.drop_last().len() implies is_digit(
                #[trigger] s.drop_last()[i],
            ) by {
                assert(s.drop_last()[i] == s[i]);
            }
        }
        lemma_digits_value_nonneg(s.drop_last());
        assert(is_digit(s[s.len() - 1]));
    }
}

pub proof fn lemma_digits_value_prefix(s: Seq<char>, k: int)
    requires
        all_digits(s),
        0 <= k <= s.len(),
    ensures
        digits_value(s.take(k)) <= digits_value(s),
    decreases s.len() - k,
{
    if k < s.len() {
        assert(s.drop_last().take(k) =~= s.take(k));
        assert(all_digits(s.drop_last())) by {
            assert forall|i: int| 0 <= i < s.drop_last().len() implies is_digit(
                #[trigger] s.drop_last()[i],
            ) by {
                assert(s.drop_last()[i] == s[i]);
            }
        }
        lemma_digits_value_prefix(s.drop_last(), k);
        lemma_digits_value_nonneg(s.drop_last());
        assert(is_digit(s[s.len() - 1]));
    } else {
        assert(s.take(k) =~= s);
    }
}

/// Reads a signed decimal integer the way `str::parse::<i64>` does.
#[verifier::rlimit(40)]
pub fn parse_i64_chars(s: &[char]) -> (r: Option<i64>)
    ensures
        r matches Some(v) ==> spec_parse_i64(s@) == Some(v as int),
        r is None ==> spec_parse_i64(s@) is None,
{
    if s.len() == 0 {
        return None;
    }
    let neg = s[0] == '-';
    let start: usize = if s[0] == '-' || s[0] == '+' { 1 } else { 0 };
    let ghost ds = if s@[0] == '-' || s@[0] == '+' { s@.drop_first() } else { s@ };
    assert(ds =~= s@.skip(start as int));
    if start == s.len() {
        return None;
    }
    let limit: u128 = 9223372036854775808;
    let mut acc: u128 = 0;
    let mut i: usize = start;
    while i < s.len()
        invariant
            start <= i <= s@.len(),
            s@.len() > 0,
            limit == 9223372036854775808u128,
            neg == (s@[0] == '-'),
            ds == (if s@[0] == '-' || s@[0] == '+' { s@.drop_first() } else { s@ }),
            ds == s@.skip(start as int),
            all_digits(ds.take(i - start)),
            acc as int == digits_value(ds.take(i - start)),
            acc <= limit,
        decreases s@.len() - i,
    {
        let c = s[i];
        assert(ds[i - start] == c);
        if !char_is_digit(c) {
            assert(!is_digit(ds[i - start]));
            assert(!all_digits(ds));
            assert(spec_parse_i64(s@) is None);
            return None;
        }
        assert((c as u32) >= 48 && (c as u32) <= 57);
        let d: u128 = ((c as u32) - ('0' as u32)) as u128;
        assert(d as int == digit_value(c));
        assert(ds.take(i - start + 1).drop_last() =~= ds.take(i - start));
        acc = acc * 10 + d;
        assert(all_digits(ds.take(i - start + 1))) by {
            assert forall|j: int| 0 <= j < ds.take(i - start + 1).len() implies is_digit(
                #[trigger] ds.take(i - start + 1)[j],
            ) by {
                if j < i - start {
                    assert(ds.take(i - start + 1)[j] == ds.take(i - start)[j]);
                }
            }
        }
        if acc > limit {
            proof {
                let k = i - start + 1;
                if all_digits(ds) {
                    lemma_digits_value_prefix(ds, k);
                }
            }
            return None;
        }
        i += 1;
    }
    assert(ds.take(i - start) =~= ds);
    if neg {
        let v: i128 = -(acc as i128);
        Some(v as i64)
    } else {
        if acc == limit {
            assert(ds.len() > 0 && all_digits(ds) && digits_value(ds) == limit);
            assert(spec_parse_i64(s@) is None);
            return None;
        }
        Some(acc as i64)
    }
}

} // verus!
