//! The order of strings (code point by code point, which is the order of their
//! UTF-8 bytes that `String`'s `Ord` uses), sorted sequences, and sorting
//! without duplicates.
use vstd::prelude::*;

verus! {

/// `a` comes strictly before `b` in lexicographic order of code points.
pub open spec fn seq_lt(a: Seq<char>, b: Seq<char>) -> bool
    decreases a.len(),
{
    if a.len() == 0 {
        b.len() > 0
    } else if b.len() == 0 {
        false
    } else if a[0] != b[0] {
        a[0] < b[0]
    } else {
        seq_lt(a.drop_first(), b.drop_first())
    }
}

/// Every element comes strictly before every later one: sorted, without duplicates.
pub open spec fn strictly_sorted(s: Seq<Seq<char>>) -> bool {
    forall|i: int, j: int| 0 <= i < j < s.len() ==> seq_lt(#[trigger] s[i], #[trigger] s[j])
}

/// The strings of `s`, sorted, each once: what `sort` then `dedup` leave.
pub open spec fn sorted_unique(s: Seq<Seq<char>>) -> Seq<Seq<char>> {
    choose|r: Seq<Seq<char>>| strictly_sorted(r) && r.to_set() == s.to_set()
}

pub proof fn lemma_lt_irreflexive(a: Seq<char>)
    ensures
        !seq_lt(a, a),
    decreases a.len(),
{
    if a.len() > 0 {
        lemma_lt_irreflexive(a.drop_first());
    }
}

pub proof fn lemma_lt_asymmetric(a: Seq<char>, b: Seq<char>)
    ensures
        !(seq_lt(a, b) && seq_lt(b, a)),
    decreases a.len(),
{
    if a.len() > 0 && b.len() > 0 && a[0] == b[0] {
        lemma_lt_asymmetric(a.drop_first(), b.drop_first());
    }
}

pub proof fn lemma_lt_transitive(a: Seq<char>, b: Seq<char>, c: Seq<char>)
    requires
        seq_lt(a, b),
        seq_lt(b, c),
    ensures
        seq_lt(a, c),
    decreases a.len(),
{
    if a.len() > 0 && b.len() > 0 && c.len() > 0 {
        if a[0] == b[0] && b[0] == c[0] {
            lemma_lt_transitive(a.drop_first(), b.drop_first(), c.drop_first());
        }
    }
}

pub proof fn lemma_lt_total(a: Seq<char>, b: Seq<char>)
    ensures
        a == b || seq_lt(a, b) || seq_lt(b, a),
    decreases a.len(),
{
    if a.len() > 0 && b.len() > 0 {
        if a[0] == b[0] {
            lemma_lt_total(a.drop_first(), b.drop_first());
            if a.drop_first() == b.drop_first() {
                assert(a =~= seq![a[0]] + a.drop_first());
                assert(b =~= seq![b[0]] + b.drop_first());
            }
        } else {
        }
    } else if a.len() == 0 && b.len() == 0 {
        assert(a =~= b);
    }
}

/// Two strictly sorted sequences with the same elements are the same sequence.
pub proof fn lemma_strictly_sorted_unique(a: Seq<Seq<char>>, b: Seq<Seq<char>>)
    requires
        strictly_sorted(a),
        strictly_sorted(b),
        a.to_set() == b.to_set(),
    ensures
        a == b,
    decreases a.len(),
{
    if a.len() == 0 {
        if b.len() > 0 {
            assert(b.to_set().contains(b[0]));
        }
        assert(a =~= b);
    } else if b.len() == 0 {
        assert(a.to_set().contains(a[0]));
    } else {
        assert(b.to_set().contains(a[0]));
        let k = choose|k: int| 0 <= k < b.len() && b[k] == a[0];
        assert(a.to_set().contains(b[0]));
        let m = choose|m: int| 0 <= m < a.len() && a[m] == b[0];
        if a[0] != b[0] {
            assert(k > 0 && m > 0);
            assert(seq_lt(b[0], b[k]));
            assert(seq_lt(a[0], a[m]));
            lemma_lt_asymmetric(a[0], b[0]);
        }
        let a1 = a.drop_first();
        let b1 = b.drop_first();
        assert(strictly_sorted(a1)) by {
            assert forall|i: int, j: int| 0 <= i < j < a1.len() implies seq_lt(
                #[trigger] a1[i],
                #[trigger] a1[j],
            ) by {
                assert(a1[i] == a[i + 1] && a1[j] == a[j + 1]);
            }
        }
        assert(strictly_sorted(b1)) by {
            assert forall|i: int, j: int| 0 <= i < j < b1.len() implies seq_lt(
                #[trigger] b1[i],
                #[trigger] b1[j],
            ) by {
                assert(b1[i] == b[i + 1] && b1[j] == b[j + 1]);
            }
        }
        assert(a1.to_set() =~= b1.to_set()) by {
            assert forall|x: Seq<char>| a1.to_set().contains(x) implies b1.to_set().contains(x) by {
                let i = choose|i: int| 0 <= i < a1.len() && a1[i] == x;
                assert(a.to_set().contains(x));
                let j = choose|j: int| 0 <= j < b.len() && b[j] == x;
                assert(seq_lt(a[0], a[i + 1]));
                if j == 0 {
                    lemma_lt_irreflexive(x);
                }
                assert(b1[j - 1] == x);
            }
            assert forall|x: Seq<char>| b1.to_set().contains(x) implies a1.to_set().contains(x) by {
                let i = choose|i: int| 0 <= i < b1.len() && b1[i] == x;
                assert(b.to_set().contains(x));
                let j = choose|j: int| 0 <= j < a.len() && a[j] == x;
                assert(seq_lt(b[0], b[i + 1]));
                if j == 0 {
                    lemma_lt_irreflexive(x);
                }
                assert(a1[j - 1] == x);
            }
        }
        lemma_strictly_sorted_unique(a1, b1);
        assert(a =~= seq![a[0]] + a1);
        assert(b =~= seq![b[0]] + b1);
    }
}

/// A strictly sorted sequence with the elements of `s` is `sorted_unique(s)`.
pub proof fn lemma_sorted_unique_is(r: Seq<Seq<char>>, s: Seq<Seq<char>>)
    requires
        strictly_sorted(r),
        r.to_set() == s.to_set(),
    ensures
        sorted_unique(s) == r,
{
    let c = sorted_unique(s);
    assert(strictly_sorted(c) && c.to_set() == s.to_set());
    lemma_strictly_sorted_unique(c, r);
}

proof fn lemma_insert_sorted(r: Seq<Seq<char>>, x: Seq<char>) -> (out: Seq<Seq<char>>)
    requires
        strictly_sorted(r),
    ensures
        strictly_sorted(out),
        out.to_set() == r.to_set().insert(x),
    decreases r.len(),
{
    if r.contains(x) {
        assert(r.to_set().insert(x) =~= r.to_set());
        r
    } else if r.len() == 0 {
        assert(seq![x].to_set() =~= r.to_set().insert(x)) by {
            assert(seq![x][0] == x);
        }
        seq![x]
    } else {
        let y = r.last();
        lemma_lt_total(x, y);
        assert(r[r.len() - 1] == y);
        if seq_lt(y, x) {
            let out = r.push(x);
            assert forall|i: int, j: int| 0 <= i < j < out.len() implies seq_lt(#[trigger] out[i], #[trigger] out[j]) by {
                if j < r.len() {
                    assert(out[i] == r[i] && out[j] == r[j]);
                } else {
                    assert(out[i] == r[i] && out[j] == x);
                    if i < r.len() - 1 {
                        lemma_lt_transitive(r[i], y, x);
                    }
                }
            }
            assert(out.to_set() =~= r.to_set().insert(x)) by {
                assert forall|z: Seq<char>| r.to_set().insert(x).contains(z) implies out.to_set().contains(z) by {
                    if z == x {
                        assert(out[r.len() as int] == x);
                    } else {
                        let i = choose|i: int| 0 <= i < r.len() && r[i] == z;
                        assert(out[i] == z);
                    }
                }
                assert forall|z: Seq<char>| out.to_set().contains(z) implies r.to_set().insert(x).contains(z) by {
                    let i = choose|i: int| 0 <= i < out.len() && out[i] == z;
                    if i < r.len() {
                        assert(r[i] == z);
                    }
                }
            }
            out
        } else {
            let p = r.drop_last();
            assert(strictly_sorted(p)) by {
                assert forall|i: int, j: int| 0 <= i < j < p.len() implies seq_lt(#[trigger] p[i], #[trigger] p[j]) by {
                    assert(p[i] == r[i] && p[j] == r[j]);
                }
            }
            let q = lemma_insert_sorted(p, x);
            let out = q.push(y);
            assert forall|z: Seq<char>| #[trigger] q.to_set().contains(z) implies seq_lt(z, y) by {
                assert(p.to_set().insert(x).contains(z));
                if z != x {
                    let i = choose|i: int| 0 <= i < p.len() && p[i] == z;
                    assert(r[i] == z);
                }
            }
            assert forall|i: int, j: int| 0 <= i < j < out.len() implies seq_lt(#[trigger] out[i], #[trigger] out[j]) by {
                if j < q.len() {
                    assert(out[i] == q[i] && out[j] == q[j]);
                } else {
                    assert(out[i] == q[i] && out[j] == y);
                    assert(q.to_set().contains(q[i]));
                }
            }
            assert(out.to_set() =~= r.to_set().insert(x)) by {
                assert(r =~= p.push(y));
                assert forall|z: Seq<char>| r.to_set().insert(x).contains(z) implies out.to_set().contains(z) by {
                    if z == y {
                        assert(out[q.len() as int] == y);
                    } else {
                        if z != x {
                            let i = choose|i: int| 0 <= i < r.len() && r[i] == z;
                            assert(i < p.len());
                            assert(p[i] == z);
                        }
                        assert(p.to_set().insert(x).contains(z));
                        assert(q.to_set().contains(z));
                        let i = choose|i: int| 0 <= i < q.len() && q[i] == z;
                        assert(out[i] == z);
                    }
                }
                assert forall|z: Seq<char>| out.to_set().contains(z) implies r.to_set().insert(x).contains(z) by {
                    let i = choose|i: int| 0 <= i < out.len() && out[i] == z;
                    if i < q.len() {
                        assert(q[i] == z);
                        assert(q.to_set().contains(z));
                        assert(p.to_set().insert(x).contains(z));
                        if z != x {
                            let k = choose|k: int| 0 <= k < p.len() && p[k] == z;
                            assert(r[k] == z);
                        }
                    } else {
                        assert(r[r.len() - 1] == z);
                    }
                }
            }
            out
        }
    }
}

proof fn lemma_sorted_exists(s: Seq<Seq<char>>) -> (r: Seq<Seq<char>>)
    ensures
        strictly_sorted(r),
        r.to_set() == s.to_set(),
    decreases s.len(),
{
    if s.len() == 0 {
        assert(Seq::<Seq<char>>::empty().to_set() =~= s.to_set());
        Seq::empty()
    } else {
        let p = lemma_sorted_exists(s.drop_last());
        let r = lemma_insert_sorted(p, s.last());
        assert(r.to_set() =~= s.to_set()) by {
            assert(s =~= s.drop_last().push(s.last()));
            assert forall|z: Seq<char>| s.to_set().contains(z) implies r.to_set().contains(z) by {
                let i = choose|i: int| 0 <= i < s.len() && s[i] == z;
                if i < s.len() - 1 {
                    assert(s.drop_last()[i] == z);
                    assert(s.drop_last().to_set().contains(z));
                }
            }
            assert forall|z: Seq<char>| r.to_set().contains(z) implies s.to_set().contains(z) by {
                if z != s.last() {
                    assert(s.drop_last().to_set().contains(z));
                    let i = choose|i: int| 0 <= i < s.drop_last().len() && s.drop_last()[i] == z;
                    assert(s[i] == z);
                } else {
                    assert(s[s.len() - 1] == z);
                }
            }
        }
        r
    }
}

/// `sorted_unique(s)` is strictly sorted and holds exactly the strings of `s`.
pub proof fn lemma_sorted_unique_contains(s: Seq<Seq<char>>)
    ensures
        strictly_sorted(sorted_unique(s)),
        forall|x: Seq<char>| #[trigger] sorted_unique(s).contains(x) <==> s.contains(x),
{
    let r = lemma_sorted_exists(s);
    lemma_sorted_unique_is(r, s);
    assert forall|x: Seq<char>| #[trigger] sorted_unique(s).contains(x) <==> s.contains(x) by {
        assert(r.to_set().contains(x) == s.to_set().contains(x));
    }
}

/// Whether `a` comes strictly before `b`.
pub fn chars_lt(a: &[char], b: &[char]) -> (r: bool)
    ensures
        r == seq_lt(a@, b@),
{
    let mut i: usize = 0;
    assert(a@.skip(0) =~= a@ && b@.skip(0) =~= b@);
    assert(a@.take(0) =~= b@.take(0));
    while i < a.len() && i < b.len()
        invariant
            i <= a@.len(),
            i <= b@.len(),
            a@.take(i as int) == b@.take(i as int),
            seq_lt(a@, b@) == seq_lt(a@.skip(i as int), b@.skip(i as int)),
        decreases a@.len() - i,
    {
        if a[i] != b[i] {
            assert(a@.skip(i as int)[0] == a@[i as int]);
            assert(b@.skip(i as int)[0] == b@[i as int]);
            return a[i] < b[i];
        }
        assert(a@.skip(i as int).drop_first() =~= a@.skip(i + 1));
        assert(b@.skip(i as int).drop_first() =~= b@.skip(i + 1));
        assert(a@.take(i + 1) =~= a@.take(i as int).push(a@[i as int]));
        assert(b@.take(i + 1) =~= b@.take(i as int).push(b@[i as int]));
        i += 1;
    }
    i < b.len()
}

/// Sorts character strings and removes duplicates.
pub fn sort_dedup_chars(items: Vec<Vec<char>>) -> (r: Vec<Vec<char>>)
    ensures
        strictly_sorted(r@.map_values(|v: Vec<char>| v@)),
        r@.map_values(|v: Vec<char>| v@).to_set() == items@.map_values(|v: Vec<char>| v@).to_set(),
{
    let ghost iv = items@.map_values(|v: Vec<char>| v@);
    let mut out: Vec<Vec<char>> = Vec::new();
    let mut n: usize = 0;
    while n < items.len()
        invariant
            n <= items@.len(),
            iv == items@.map_values(|v: Vec<char>| v@),
            strictly_sorted(out@.map_values(|v: Vec<char>| v@)),
            out@.map_values(|v: Vec<char>| v@).to_set() == iv.take(n as int).to_set(),
        decreases items@.len() - n,
    {
        let ghost ov = out@.map_values(|v: Vec<char>| v@);
        let x = &items[n];
        let mut j: usize = 0;
        while j < out.len() && chars_lt(out[j].as_slice(), x.as_slice())
            invariant
                j <= out@.len(),
                ov == out@.map_values(|v: Vec<char>| v@),
                forall|k: int| 0 <= k < j ==> seq_lt(#[trigger] ov[k], x@),
            decreases out@.len() - j,
        {
            j += 1;
        }
        assert(iv.take(n + 1) =~= iv.take(n as int).push(x@));
        proof {
            iv.take(n as int).lemma_push_to_set_commute(x@);
        }
        if j < out.len() && chars_eq_vec(&out[j], x) {
            assert(ov[j as int] == x@);
            assert(iv.take(n + 1).to_set() =~= ov.to_set()) by {
                assert(ov.to_set().contains(x@));
            }
        } else {
            let ghost old_out = out@;
            out.insert(j, x.clone());
            let ghost nv = out@.map_values(|v: Vec<char>| v@);
            assert(nv =~= ov.insert(j as int, x@));
            proof {
                if j < ov.len() {
                    lemma_lt_total(ov[j as int], x@);
                }
                assert forall|a: int, b: int| 0 <= a < b < nv.len() implies seq_lt(
                    #[trigger] nv[a],
                    #[trigger] nv[b],
                ) by {
                    if b < j {
                        assert(nv[a] == ov[a] && nv[b] == ov[b]);
                    } else if b == j {
                        assert(nv[a] == ov[a]);
                    } else if a < j {
                        assert(nv[a] == ov[a] && nv[b] == ov[b - 1]);
                        assert(seq_lt(ov[a], x@));
                        if b - 1 > j {
                            assert(seq_lt(ov[j as int], ov[b - 1]));
                            lemma_lt_transitive(x@, ov[j as int], ov[b - 1]);
                        }
                        lemma_lt_transitive(ov[a], x@, ov[b - 1]);
                    } else if a == j {
                        assert(nv[b] == ov[b - 1]);
                        if b - 1 > j {
                            assert(seq_lt(ov[j as int], ov[b - 1]));
                            lemma_lt_transitive(x@, ov[j as int], ov[b - 1]);
                        }
                    } else {
                        assert(nv[a] == ov[a - 1] && nv[b] == ov[b - 1]);
                    }
                }
                assert(nv.to_set() =~= ov.to_set().insert(x@)) by {
                    assert forall|y: Seq<char>| nv.to_set().contains(y) implies ov.to_set().insert(
                        x@,
                    ).contains(y) by {
                        let i = choose|i: int| 0 <= i < nv.len() && nv[i] == y;
                        if i < j {
                            assert(ov[i] == y);
                        } else if i > j {
                            assert(ov[i - 1] == y);
                        }
                    }
                    assert forall|y: Seq<char>| ov.to_set().insert(x@).contains(y) implies nv.to_set().contains(
                        y,
                    ) by {
                        if y == x@ {
                            assert(nv[j as int] == y);
                        } else {
                            let i = choose|i: int| 0 <= i < ov.len() && ov[i] == y;
                            if i < j {
                                assert(nv[i] == y);
                            } else {
                                assert(nv[i + 1] == y);
                            }
                        }
                    }
                }
            }
        }
        n += 1;
    }
    assert(iv.take(items@.len() as int) =~= iv);
    out
}

fn chars_eq_vec(a: &Vec<char>, b: &Vec<char>) -> (r: bool)
    ensures
        r == (a@ == b@),
{
    crate::text::chars_eq(a.as_slice(), b.as_slice())
}

} // verus!
