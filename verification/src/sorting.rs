//! The order of strings (`str`'s `Ord`: lexicographic by code point, which
//! is the byte order of their UTF-8) and a sort by it.

use vstd::prelude::*;
use vstd::relations::{sorted_by, total_ordering};
use crate::text::chars_of;
use crate::parser::naming::views;

verus! {

broadcast use vstd::seq_lib::group_to_multiset_ensures;

/// `a <= b` in the lexicographic order of code points.
pub open spec fn lex_le(a: Seq<char>, b: Seq<char>) -> bool
    decreases a.len(),
{
    if a.len() == 0 {
        true
    } else if b.len() == 0 {
        false
    } else if a[0] == b[0] {
        lex_le(a.drop_first(), b.drop_first())
    } else {
        a[0] < b[0]
    }
}

/// The order as a relation value.
pub open spec fn lex_leq() -> spec_fn(Seq<char>, Seq<char>) -> bool {
    |a: Seq<char>, b: Seq<char>| lex_le(a, b)
}

pub proof fn lemma_lex_reflexive(a: Seq<char>)
    ensures
        lex_le(a, a),
    decreases a.len(),
{
    if a.len() > 0 {
        lemma_lex_reflexive(a.drop_first());
    }
}

pub proof fn lemma_lex_antisymmetric(a: Seq<char>, b: Seq<char>)
    requires
        lex_le(a, b),
        lex_le(b, a),
    ensures
        a == b,
    decreases a.len(),
{
    if a.len() > 0 && b.len() > 0 {
        if a[0] == b[0] {
            lemma_lex_antisymmetric(a.drop_first(), b.drop_first());
            assert(a =~= seq![a[0]] + a.drop_first());
            assert(b =~= seq![b[0]] + b.drop_first());
        }
    } else {
        assert(a =~= b);
    }
}

pub proof fn lemma_lex_transitive(a: Seq<char>, b: Seq<char>, c: Seq<char>)
    requires
        lex_le(a, b),
        lex_le(b, c),
    ensures
        lex_le(a, c),
    decreases a.len(),
{
    if a.len() > 0 && b.len() > 0 && c.len() > 0 {
        if a[0] == b[0] && b[0] == c[0] {
            lemma_lex_transitive(a.drop_first(), b.drop_first(), c.drop_first());
        }
    }
}

pub proof fn lemma_lex_total(a: Seq<char>, b: Seq<char>)
    ensures
        lex_le(a, b) || lex_le(b, a),
    decreases a.len(),
{
    if a.len() > 0 && b.len() > 0 && a[0] == b[0] {
        lemma_lex_total(a.drop_first(), b.drop_first());
    }
}

/// The lexicographic order is a total order.
pub proof fn lemma_lex_total_ordering()
    ensures
        total_ordering(lex_leq()),
{
    let r = lex_leq();
    assert forall|x: Seq<char>| #[trigger] r(x, x) by {
        lemma_lex_reflexive(x);
    }
    assert forall|x: Seq<char>, y: Seq<char>| #[trigger] r(x, y) && #[trigger] r(y, x) implies x == y by {
        lemma_lex_antisymmetric(x, y);
    }
    assert forall|x: Seq<char>, y: Seq<char>, z: Seq<char>| #[trigger] r(x, y) && #[trigger] r(y, z) implies r(x, z) by {
        lemma_lex_transitive(x, y, z);
    }
    assert forall|x: Seq<char>, y: Seq<char>| #[trigger] r(x, y) || #[trigger] r(y, x) by {
        lemma_lex_total(x, y);
    }
}

/// Whether `a <= b` as strings.
pub fn str_le(a: &str, b: &str) -> (r: bool)
    ensures
        r == lex_le(a@, b@),
{
    let va = chars_of(a);
    let vb = chars_of(b);
    let mut i: usize = 0;
    assert(va@.skip(0) =~= va@);
    assert(vb@.skip(0) =~= vb@);
    while i < va.len() && i < vb.len()
        invariant
            i <= va@.len(),
            i <= vb@.len(),
            va@ == a@,
            vb@ == b@,
            lex_le(va@, vb@) == lex_le(va@.skip(i as int), vb@.skip(i as int)),
        decreases va@.len() - i,
    {
        proof {
            assert(va@.skip(i as int)[0] == va@[i as int]);
            assert(vb@.skip(i as int)[0] == vb@[i as int]);
            assert(va@.skip(i as int).drop_first() =~= va@.skip(i + 1));
            assert(vb@.skip(i as int).drop_first() =~= vb@.skip(i + 1));
        }
        let ca = va[i];
        let cb = vb[i];
        if ca != cb {
            let lt = ca < cb;
            proof {
                assert(lex_le(va@.skip(i as int), vb@.skip(i as int)) == (ca < cb));
            }
            return lt;
        }
        i += 1;
    }
    proof {
        assert(va@ == a@);
        assert(vb@ == b@);
    }
    i == va.len()
}

/// `s` is sorted by the lexicographic order.
pub open spec fn sorted_lex(s: Seq<Seq<char>>) -> bool {
    forall|i: int, j: int| 0 <= i < j < s.len() ==> lex_le(#[trigger] s[i], #[trigger] s[j])
}

/// The strings of `items` in ascending order (`[String]::sort`).
pub fn sort_strings(items: Vec<String>) -> (r: Vec<String>)
    ensures
        views(r@) == views(items@).sort_by(lex_leq()),
{
    let mut out: Vec<String> = Vec::new();
    let mut i: usize = 0;
    while i < items.len()
        invariant
            i <= items@.len(),
            sorted_lex(views(out@)),
            views(out@).to_multiset() == views(items@).take(i as int).to_multiset(),
        decreases items@.len() - i,
    {
        let x = items[i].clone();
        let ghost xv = items@[i as int]@;
        proof {
            assert(x@ == xv);
        }
        let mut p: usize = 0;
        while p < out.len() && str_le(out[p].as_str(), x.as_str())
            invariant
                p <= out@.len(),
                forall|k: int| 0 <= k < p ==> lex_le(#[trigger] out@[k]@, xv),
                x@ == xv,
            decreases out@.len() - p,
        {
            p += 1;
        }
        let ghost before = views(out@);
        proof {
            if p < out@.len() {
                assert(!lex_le(out@[p as int]@, xv));
                lemma_lex_total(out@[p as int]@, xv);
            }
        }
        out.insert(p, x);
        proof {
            let s = views(out@);
            assert(s =~= before.insert(p as int, xv));
            assert forall|a: int, b: int| 0 <= a < b < s.len() implies lex_le(#[trigger] s[a], #[trigger] s[b]) by {
                if b < p {
                    assert(s[a] == before[a] && s[b] == before[b]);
                } else if b == p {
                    assert(s[a] == before[a]);
                    assert(lex_le(out@[a]@, xv));
                } else if a < p {
                    assert(s[a] == before[a] && s[b] == before[b - 1]);
                    assert(lex_le(before[a], xv));
                    assert(lex_le(xv, before[p as int]));
                    if b - 1 > p {
                        assert(lex_le(before[p as int], before[b - 1]));
                        lemma_lex_transitive(xv, before[p as int], before[b - 1]);
                    }
                    lemma_lex_transitive(before[a], xv, before[b - 1]);
                } else if a == p {
                    assert(s[b] == before[b - 1]);
                    assert(lex_le(xv, before[p as int]));
                    if b - 1 > p {
                        assert(lex_le(before[p as int], before[b - 1]));
                        lemma_lex_transitive(xv, before[p as int], before[b - 1]);
                    }
                } else {
                    assert(s[a] == before[a - 1] && s[b] == before[b - 1]);
                }
            }
            assert(views(items@).take(i + 1) =~= views(items@).take(i as int).push(xv));
        }
        i += 1;
    }
    proof {
        assert(views(items@).take(items@.len() as int) =~= views(items@));
        lemma_lex_total_ordering();
        views(items@).lemma_sort_by_ensures(lex_leq());
        let s = views(out@);
        assert forall|a: int, b: int| 0 <= a < b < s.len() implies #[trigger] (lex_leq())(s[a], s[b]) by {
            assert(lex_le(s[a], s[b]));
        }
        assert(sorted_by(s, lex_leq()));
        vstd::seq_lib::lemma_sorted_unique(s, views(items@).sort_by(lex_leq()), lex_leq());
    }
    out
}

} // verus!
