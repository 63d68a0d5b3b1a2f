//! Ordering names the way `String`'s `Ord` does: by code point, which is
//! the byte order of their UTF-8 encoding.

use vstd::prelude::*;
use crate::text::chars_of;

verus! {

/// `a` comes strictly before `b`: at the first difference a smaller code
/// point, or `a` a proper prefix of `b`.
pub open spec fn lex_lt(a: Seq<char>, b: Seq<char>) -> bool
    decreases a.len(),
{
    if b.len() == 0 {
        false
    } else if a.len() == 0 {
        true
    } else if a[0] != b[0] {
        a[0] < b[0]
    } else {
        lex_lt(a.skip(1), b.skip(1))
    }
}

/// Strictly increasing, so without repeats.
pub open spec fn strictly_sorted(s: Seq<Seq<char>>) -> bool {
    forall|i: int, j: int| 0 <= i < j < s.len() ==> #[trigger] lex_lt(s[i], s[j])
}

/// In increasing order, equal names side by side.
pub open spec fn sorted(s: Seq<Seq<char>>) -> bool {
    forall|i: int, j: int| 0 <= i < j < s.len() ==> !#[trigger] lex_lt(s[j], s[i])
}

pub open spec fn string_views(v: Seq<String>) -> Seq<Seq<char>> {
    v.map_values(|s: String| s@)
}

proof fn lemma_lex_irreflexive(a: Seq<char>)
    ensures
        !lex_lt(a, a),
    decreases a.len(),
{
    if a.len() > 0 {
        lemma_lex_irreflexive(a.skip(1));
    }
}

proof fn lemma_lex_total(a: Seq<char>, b: Seq<char>)
    requires
        a != b,
    ensures
        lex_lt(a, b) || lex_lt(b, a),
    decreases a.len(),
{
    if a.len() > 0 && b.len() > 0 {
        if a[0] == b[0] {
            assert(a.skip(1) != b.skip(1)) by {
                if a.skip(1) == b.skip(1) {
                    assert(a =~= seq![a[0]] + a.skip(1));
                    assert(b =~= seq![b[0]] + b.skip(1));
                }
            }
            lemma_lex_total(a.skip(1), b.skip(1));
        }
    } else if a.len() == 0 && b.len() == 0 {
        assert(a =~= b);
    }
}

proof fn lemma_lex_asymmetric(a: Seq<char>, b: Seq<char>)
    requires
        lex_lt(a, b),
    ensures
        !lex_lt(b, a),
    decreases a.len(),
{
    if a.len() > 0 && b.len() > 0 && a[0] == b[0] {
        lemma_lex_asymmetric(a.skip(1), b.skip(1));
    }
}

proof fn lemma_lex_transitive(a: Seq<char>, b: Seq<char>, c: Seq<char>)
    requires
        lex_lt(a, b),
        lex_lt(b, c),
    ensures
        lex_lt(a, c),
    decreases a.len(),
{
    if a.len() > 0 && b.len() > 0 && c.len() > 0 && a[0] == b[0] && b[0] == c[0] {
        lemma_lex_transitive(a.skip(1), b.skip(1), c.skip(1));
    }
}

/// Whether `a` comes strictly before `b`.
pub fn name_lt(a: &str, b: &str) -> (r: bool)
    ensures
        r == lex_lt(a@, b@),
{
    let x = chars_of(a);
    let y = chars_of(b);
    let mut i: usize = 0;
    assert(a@.skip(0) =~= a@ && b@.skip(0) =~= b@);
    while i < x.len() && i < y.len() && x[i] == y[i]
        invariant
            x@ == a@,
            y@ == b@,
            i <= x@.len(),
            i <= y@.len(),
            lex_lt(a@, b@) == lex_lt(a@.skip(i as int), b@.skip(i as int)),
        decreases x@.len() - i,
    {
        assert(a@.skip(i as int).skip(1) =~= a@.skip(i + 1));
        assert(b@.skip(i as int).skip(1) =~= b@.skip(i + 1));
        i = i + 1;
    }
    if i == y.len() {
        false
    } else if i == x.len() {
        true
    } else {
        x[i] < y[i]
    }
}

/// The names in increasing order, each once.
pub fn sorted_unique(names: Vec<String>) -> (r: Vec<String>)
    ensures
        strictly_sorted(string_views(r@)),
        forall|s: Seq<char>| string_views(r@).contains(s) <==> string_views(names@).contains(s),
{
    let ghost input = string_views(names@);
    let mut out: Vec<String> = Vec::new();
    let mut k: usize = 0;
    while k < names.len()
        invariant
            input == string_views(names@),
            k <= names@.len(),
            strictly_sorted(string_views(out@)),
            forall|s: Seq<char>| string_views(out@).contains(s) <==> input.take(k as int).contains(s),
        decreases names@.len() - k,
    {
        let x = &names[k];
        let ghost ov = string_views(out@);
        let mut p: usize = 0;
        while p < out.len() && name_lt(out[p].as_str(), x.as_str())
            invariant
                ov == string_views(out@),
                p <= out@.len(),
                forall|q: int| 0 <= q < p ==> #[trigger] lex_lt(ov[q], x@),
            decreases out@.len() - p,
        {
            p = p + 1;
        }
        assert(input.take(k + 1) =~= input.take(k as int).push(x@));
        if p < out.len() && out[p] == *x {
            assert(ov[p as int] == x@);
            assert(ov.contains(x@));
        } else {
            proof {
                if p < ov.len() {
                    assert(!lex_lt(ov[p as int], x@));
                    assert(ov[p as int] != x@);
                    lemma_lex_total(ov[p as int], x@);
                    assert forall|q: int| p < q < ov.len() implies #[trigger] lex_lt(x@, ov[q]) by {
                        assert(lex_lt(ov[p as int], ov[q]));
                        lemma_lex_transitive(x@, ov[p as int], ov[q]);
                    }
                }
            }
            out.insert(p, x.clone());
            let ghost nv = string_views(out@);
            assert(nv =~= ov.insert(p as int, x@));
            assert forall|i: int, j: int| 0 <= i < j < nv.len() implies #[trigger] lex_lt(nv[i], nv[j]) by {
                if j < p {
                    assert(nv[i] == ov[i] && nv[j] == ov[j]);
                } else if j == p {
                    assert(nv[i] == ov[i]);
                } else if i == p {
                    assert(nv[j] == ov[j - 1]);
                } else if i < p {
                    assert(nv[i] == ov[i] && nv[j] == ov[j - 1]);
                } else {
                    assert(nv[i] == ov[i - 1] && nv[j] == ov[j - 1]);
                }
            }
            assert forall|s: Seq<char>| nv.contains(s) <==> (ov.contains(s) || s == x@) by {
                if nv.contains(s) {
                    let i = choose|i: int| 0 <= i < nv.len() && nv[i] == s;
                    if i < p {
                        assert(ov[i] == s);
                    } else if i > p {
                        assert(ov[i - 1] == s);
                    }
                }
                if ov.contains(s) {
                    let i = choose|i: int| 0 <= i < ov.len() && ov[i] == s;
                    if i < p {
                        assert(nv[i] == s);
                    } else {
                        assert(nv[i + 1] == s);
                    }
                }
                if s == x@ {
                    assert(nv[p as int] == s);
                }
            }
        }
        proof {
            assert forall|s: Seq<char>| input.take(k + 1).contains(s) <==> (input.take(
                k as int,
            ).contains(s) || s == x@) by {
                let t1 = input.take(k + 1);
                let t0 = input.take(k as int);
                if t1.contains(s) {
                    let i = choose|i: int| 0 <= i < t1.len() && t1[i] == s;
                    if i < k {
                        assert(input.take(k as int)[i] == s);
                    }
                }
                if t0.contains(s) {
                    let i = choose|i: int| 0 <= i < t0.len() && t0[i] == s;
                    assert(input.take(k + 1)[i] == s);
                }
                if s == x@ {
                    assert(input.take(k + 1)[k as int] == s);
                }
            }
        }
        k = k + 1;
    }
    assert(input.take(names@.len() as int) =~= input);
    out
}


/// The names in increasing order, each as often as it was given.
pub fn sort_names(names: Vec<String>) -> (r: Vec<String>)
    ensures
        sorted(string_views(r@)),
        string_views(r@).to_multiset() == string_views(names@).to_multiset(),
{
    let ghost input = string_views(names@);
    let mut out: Vec<String> = Vec::new();
    let mut k: usize = 0;
    assert(string_views(out@) =~= input.take(0));
    while k < names.len()
        invariant
            input == string_views(names@),
            k <= names@.len(),
            sorted(string_views(out@)),
            string_views(out@).to_multiset() == input.take(k as int).to_multiset(),
        decreases names@.len() - k,
    {
        let x = &names[k];
        let ghost ov = string_views(out@);
        let mut p: usize = 0;
        while p < out.len() && !name_lt(x.as_str(), out[p].as_str())
            invariant
                ov == string_views(out@),
                p <= out@.len(),
                forall|q: int| 0 <= q < p ==> !#[trigger] lex_lt(x@, ov[q]),
            decreases out@.len() - p,
        {
            p = p + 1;
        }
        proof {
            if p < ov.len() {
                assert(lex_lt(x@, ov[p as int]));
                lemma_lex_asymmetric(x@, ov[p as int]);
                assert forall|q: int| p <= q < ov.len() implies !#[trigger] lex_lt(ov[q], x@) by {
                    assert(q == p || !lex_lt(ov[q], ov[p as int]));
                    if lex_lt(ov[q], x@) {
                        lemma_lex_transitive(ov[q], x@, ov[p as int]);
                    }
                }
            }
        }
        out.insert(p, x.clone());
        let ghost nv = string_views(out@);
        assert(nv =~= ov.insert(p as int, x@));
        assert(nv[p as int] == x@);
        assert forall|i: int, j: int| 0 <= i < j < nv.len() implies !#[trigger] lex_lt(nv[j], nv[i]) by {
            if j < p {
                assert(nv[i] == ov[i] && nv[j] == ov[j]);
            } else if j == p {
                assert(nv[i] == ov[i]);
            } else if i == p {
                assert(nv[j] == ov[j - 1]);
            } else if i < p {
                assert(nv[i] == ov[i] && nv[j] == ov[j - 1]);
            } else {
                assert(nv[i] == ov[i - 1] && nv[j] == ov[j - 1]);
            }
        }
        assert(input.take(k + 1) =~= input.take(k as int).push(x@));
        assert(input.take(k as int).push(x@) =~= input.take(k as int).insert(k as int, x@));
        proof {
            vstd::seq_lib::to_multiset_insert(ov, p as int, x@);
            vstd::seq_lib::to_multiset_insert(input.take(k as int), k as int, x@);
        }
        k = k + 1;
    }
    assert(input.take(names@.len() as int) =~= input);
    out
}

} // verus!
