//! Grouping keys: the distinct keys of a sequence in the order they first
//! appear, and sorted sets of characters.
use vstd::prelude::*;
use crate::text::{chars_eq, chars_view, lemma_chars_view_push};

verus! {

/// The elements of `s`, each once, in the order of their first occurrence.
pub open spec fn distinct<A>(s: Seq<A>) -> Seq<A>
    decreases s.len(),
{
    if s.len() == 0 {
        Seq::empty()
    } else {
        let p = distinct(s.drop_last());
        if p.contains(s.last()) {
            p
        } else {
            p.push(s.last())
        }
    }
}

/// Whether `keys` holds the characters `k`.
pub fn contains_chars(keys: &Vec<Vec<char>>, k: &[char]) -> (r: bool)
    ensures
        r == chars_view(keys@).contains(k@),
{
    let mut i: usize = 0;
    while i < keys.len()
        invariant
            i <= keys@.len(),
            forall|j: int| 0 <= j < i ==> chars_view(keys@)[j] != k@,
        decreases keys@.len() - i,
    {
        if chars_eq(keys[i].as_slice(), k) {
            assert(chars_view(keys@)[i as int] == k@);
            return true;
        }
        i += 1;
    }
    false
}

/// Adds `k` to the distinct keys `keys` unless it is there already.
pub fn push_distinct_chars(keys: &mut Vec<Vec<char>>, k: Vec<char>)
    ensures
        chars_view(final(keys)@) == if chars_view(old(keys)@).contains(k@) {
            chars_view(old(keys)@)
        } else {
            chars_view(old(keys)@).push(k@)
        },
{
    if !contains_chars(keys, k.as_slice()) {
        proof {
            lemma_chars_view_push(keys@, k);
        }
        keys.push(k);
    }
}

/// Whether `v` holds the character `c`.
pub fn contains_char(v: &Vec<char>, c: char) -> (r: bool)
    ensures
        r == v@.contains(c),
{
    let mut i: usize = 0;
    while i < v.len()
        invariant
            i <= v@.len(),
            forall|j: int| 0 <= j < i ==> v@[j] != c,
        decreases v@.len() - i,
    {
        if v[i] == c {
            return true;
        }
        i += 1;
    }
    false
}

/// Every character is strictly smaller than every later one.
pub open spec fn chars_ascending(s: Seq<char>) -> bool {
    forall|i: int, j: int| 0 <= i < j < s.len() ==> #[trigger] s[i] < #[trigger] s[j]
}

/// The characters of `s` in ascending order, each once.
pub open spec fn sorted_chars(s: Seq<char>) -> Seq<char> {
    choose|r: Seq<char>| chars_ascending(r) && r.to_set() == s.to_set()
}

pub proof fn lemma_chars_ascending_unique(a: Seq<char>, b: Seq<char>)
    requires
        chars_ascending(a),
        chars_ascending(b),
        a.to_set() == b.to_set(),
    ensures
        a == b,
    decreases a.len(),
{
    if a.len() == 0 {
        if b.len() > 0 {
            assert(b.to_set().contains(b[0]));
        }
        assert(a =~= b);
    } else if b.len() == 0 {
        assert(a.to_set().contains(a[0]));
    } else {
        assert(b.to_set().contains(a[0]));
        let k = choose|k: int| 0 <= k < b.len() && b[k] == a[0];
        assert(a.to_set().contains(b[0]));
        let m = choose|m: int| 0 <= m < a.len() && a[m] == b[0];
        if a[0] != b[0] {
            assert(k > 0 && m > 0);
            assert(b[0] < b[k]);
            assert(a[0] < a[m]);
        }
        let a1 = a.drop_first();
        let b1 = b.drop_first();
        assert(chars_ascending(a1)) by {
            assert forall|i: int, j: int| 0 <= i < j < a1.len() implies #[trigger] a1[i] < #[trigger] a1[j] by {
                assert(a1[i] == a[i + 1] && a1[j] == a[j + 1]);
            }
        }
        assert(chars_ascending(b1)) by {
            assert forall|i: int, j: int| 0 <= i < j < b1.len() implies #[trigger] b1[i] < #[trigger] b1[j] by {
                assert(b1[i] == b[i + 1] && b1[j] == b[j + 1]);
            }
        }
        assert(a1.to_set() =~= b1.to_set()) by {
            assert forall|x: char| a1.to_set().contains(x) implies b1.to_set().contains(x) by {
                let i = choose|i: int| 0 <= i < a1.len() && a1[i] == x;
                assert(a.to_set().contains(x));
                let j = choose|j: int| 0 <= j < b.len() && b[j] == x;
                assert(a[0] < a[i + 1]);
                assert(b1[j - 1] == x);
            }
            assert forall|x: char| b1.to_set().contains(x) implies a1.to_set().contains(x) by {
                let i = choose|i: int| 0 <= i < b1.len() && b1[i] == x;
                assert(b.to_set().contains(x));
                let j = choose|j: int| 0 <= j < a.len() && a[j] == x;
                assert(b[0] < b[i + 1]);
                assert(a1[j - 1] == x);
            }
        }
        lemma_chars_ascending_unique(a1, b1);
        assert(a =~= seq![a[0]] + a1);
        assert(b =~= seq![b[0]] + b1);
    }
}

/// Sorts characters ascending and removes duplicates.
pub fn sort_chars(items: &Vec<char>) -> (r: Vec<char>)
    ensures
        chars_ascending(r@),
        r@.to_set() == items@.to_set(),
        r@ == sorted_chars(items@),
{
    let mut out: Vec<char> = Vec::new();
    let mut n: usize = 0;
    while n < items.len()
        invariant
            n <= items@.len(),
            chars_ascending(out@),
            out@.to_set() == items@.take(n as int).to_set(),
        decreases items@.len() - n,
    {
        let x = items[n];
        let ghost ov = out@;
        let mut j: usize = 0;
        while j < out.len() && out[j] < x
            invariant
                j <= out@.len(),
                ov == out@,
                forall|k: int| 0 <= k < j ==> #[trigger] ov[k] < x,
            decreases out@.len() - j,
        {
            j += 1;
        }
        assert(items@.take(n + 1) =~= items@.take(n as int).push(x));
        proof {
            items@.take(n as int).lemma_push_to_set_commute(x);
        }
        if j < out.len() && out[j] == x {
            assert(items@.take(n + 1).to_set() =~= ov.to_set()) by {
                assert(ov.to_set().contains(x));
            }
        } else {
            out.insert(j, x);
            let ghost nv = out@;
            assert(nv =~= ov.insert(j as int, x));
            proof {
                assert forall|a: int, b: int| 0 <= a < b < nv.len() implies #[trigger] nv[a] < #[trigger] nv[b] by {
                    if b < j {
                        assert(nv[a] == ov[a] && nv[b] == ov[b]);
                    } else if b == j {
                        assert(nv[a] == ov[a]);
                    } else if a < j {
                        assert(nv[a] == ov[a] && nv[b] == ov[b - 1]);
                        if b - 1 > j {
                            assert(ov[j as int] < ov[b - 1]);
                        }
                    } else if a == j {
                        assert(nv[b] == ov[b - 1]);
                        if b - 1 > j {
                            assert(ov[j as int] < ov[b - 1]);
                        }
                    } else {
                        assert(nv[a] == ov[a - 1] && nv[b] == ov[b - 1]);
                    }
                }
                assert(nv.to_set() =~= ov.to_set().insert(x)) by {
                    assert forall|y: char| nv.to_set().contains(y) implies ov.to_set().insert(x).contains(y) by {
                        let i = choose|i: int| 0 <= i < nv.len() && nv[i] == y;
                        if i < j {
                            assert(ov[i] == y);
                        } else if i > j {
                            assert(ov[i - 1] == y);
                        }
                    }
                    assert forall|y: char| ov.to_set().insert(x).contains(y) implies nv.to_set().contains(y) by {
                        if y == x {
                            assert(nv[j as int] == y);
                        } else {
                            let i = choose|i: int| 0 <= i < ov.len() && ov[i] == y;
                            if i < j {
                                assert(nv[i] == y);
                            } else {
                                assert(nv[i + 1] == y);
                            }
                        }
                    }
                }
            }
        }
        n += 1;
    }
    assert(items@.take(items@.len() as int) =~= items@);
    proof {
        let c = sorted_chars(items@);
        assert(chars_ascending(c) && c.to_set() == items@.to_set());
        lemma_chars_ascending_unique(c, out@);
    }
    out
}

} // verus!

verus! {

/// `r` with `c` put in its place among ascending characters (left as it is
/// when `c` is there already).
pub open spec fn insert_ascending(r: Seq<char>, c: char) -> Seq<char>
    decreases r.len(),
{
    if r.len() == 0 {
        seq![c]
    } else if c < r[0] {
        seq![c] + r
    } else if c == r[0] {
        r
    } else {
        seq![r[0]] + insert_ascending(r.drop_first(), c)
    }
}

proof fn lemma_insert_ascending(r: Seq<char>, c: char)
    requires
        chars_ascending(r),
    ensures
        chars_ascending(insert_ascending(r, c)),
        insert_ascending(r, c).to_set() == r.to_set().insert(c),
        insert_ascending(r, c).len() > 0,
        insert_ascending(r, c)[0] == c || (r.len() > 0 && insert_ascending(r, c)[0] == r[0]),
    decreases r.len(),
{
    let n = insert_ascending(r, c);
    if r.len() == 0 {
        assert(n.to_set() =~= r.to_set().insert(c)) by {
            assert forall|y: char| n.to_set().contains(y) implies r.to_set().insert(c).contains(y) by {
                let i = choose|i: int| 0 <= i < n.len() && n[i] == y;
            }
            assert(n[0] == c);
        }
    } else if c < r[0] {
        assert forall|a: int, b: int| 0 <= a < b < n.len() implies #[trigger] n[a] < #[trigger] n[b] by {
            if a == 0 {
                assert(n[b] == r[b - 1]);
                if b - 1 > 0 {
                    assert(r[0] < r[b - 1]);
                }
            } else {
                assert(n[a] == r[a - 1] && n[b] == r[b - 1]);
            }
        }
        assert(n.to_set() =~= r.to_set().insert(c)) by {
            assert forall|y: char| n.to_set().contains(y) implies r.to_set().insert(c).contains(y) by {
                let i = choose|i: int| 0 <= i < n.len() && n[i] == y;
                if i > 0 {
                    assert(r[i - 1] == y);
                }
            }
            assert forall|y: char| r.to_set().insert(c).contains(y) implies n.to_set().contains(y) by {
                if y == c {
                    assert(n[0] == y);
                } else {
                    let i = choose|i: int| 0 <= i < r.len() && r[i] == y;
                    assert(n[i + 1] == y);
                }
            }
        }
    } else if c == r[0] {
        assert(r.to_set().contains(c));
        assert(r.to_set().insert(c) =~= r.to_set());
    } else {
        let t = r.drop_first();
        assert(chars_ascending(t)) by {
            assert forall|i: int, j: int| 0 <= i < j < t.len() implies #[trigger] t[i] < #[trigger] t[j] by {
                assert(t[i] == r[i + 1] && t[j] == r[j + 1]);
            }
        }
        lemma_insert_ascending(t, c);
        let u = insert_ascending(t, c);
        assert(n == seq![r[0]] + u);
        assert forall|a: int, b: int| 0 <= a < b < n.len() implies #[trigger] n[a] < #[trigger] n[b] by {
            if a == 0 {
                assert(n[b] == u[b - 1]);
                assert(u.to_set().contains(u[b - 1]));
                assert(t.to_set().insert(c).contains(u[b - 1]));
                if u[b - 1] != c {
                    let k = choose|k: int| 0 <= k < t.len() && t[k] == u[b - 1];
                    assert(r[k + 1] == t[k]);
                    assert(r[0] < r[k + 1]);
                }
            } else {
                assert(n[a] == u[a - 1] && n[b] == u[b - 1]);
            }
        }
        assert(n.to_set() =~= r.to_set().insert(c)) by {
            assert forall|y: char| n.to_set().contains(y) implies r.to_set().insert(c).contains(y) by {
                let i = choose|i: int| 0 <= i < n.len() && n[i] == y;
                if i > 0 {
                    assert(u[i - 1] == y);
                    assert(u.to_set().contains(y));
                    if y != c {
                        let k = choose|k: int| 0 <= k < t.len() && t[k] == y;
                        assert(r[k + 1] == y);
                    }
                }
            }
            assert forall|y: char| r.to_set().insert(c).contains(y) implies n.to_set().contains(y) by {
                if y == c {
                    assert(t.to_set().insert(c).contains(c));
                    let k = choose|k: int| 0 <= k < u.len() && u[k] == c;
                    assert(n[k + 1] == c);
                } else {
                    let i = choose|i: int| 0 <= i < r.len() && r[i] == y;
                    if i == 0 {
                        assert(n[0] == y);
                    } else {
                        assert(t[i - 1] == y);
                        assert(t.to_set().insert(c).contains(y));
                        let k = choose|k: int| 0 <= k < u.len() && u[k] == y;
                        assert(n[k + 1] == y);
                    }
                }
            }
        }
    }
}

/// The characters of `s`, ascending and each once.
proof fn lemma_ascending_exists(s: Seq<char>) -> (r: Seq<char>)
    ensures
        chars_ascending(r),
        r.to_set() == s.to_set(),
    decreases s.len(),
{
    if s.len() == 0 {
        let r = Seq::<char>::empty();
        assert(r.to_set() =~= s.to_set());
        r
    } else {
        let p = lemma_ascending_exists(s.drop_last());
        lemma_insert_ascending(p, s.last());
        s.drop_last().lemma_push_to_set_commute(s.last());
        assert(s.drop_last().push(s.last()) =~= s);
        insert_ascending(p, s.last())
    }
}

/// The sorted characters of `s` are ascending, and they are the characters of `s`.
pub proof fn lemma_sorted_chars(s: Seq<char>)
    ensures
        chars_ascending(sorted_chars(s)),
        sorted_chars(s).to_set() == s.to_set(),
{
    let r = lemma_ascending_exists(s);
    assert(chars_ascending(r) && r.to_set() == s.to_set());
}

} // verus!
