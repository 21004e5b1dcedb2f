use crate::dag::{lex_lt, name_lt, names_of};
use vstd::prelude::*;

verus! {

/// `a` sorts no later than `b`.
pub open spec fn lex_le(a: Seq<char>, b: Seq<char>) -> bool {
    !lex_lt(b, a)
}

/// The names are in lexicographic order.
pub open spec fn sorted_names(s: Seq<Seq<char>>) -> bool {
    forall|i: int, j: int| 0 <= i < j < s.len() ==> lex_le(#[trigger] s[i], #[trigger] s[j])
}

/// Either of two names sorts first.
pub proof fn lemma_lex_total(a: Seq<char>, b: Seq<char>)
    ensures
        lex_le(a, b) || lex_le(b, a),
    decreases a.len(),
{
    if a.len() > 0 && b.len() > 0 && (a[0] as u32) == (b[0] as u32) {
        lemma_lex_total(a.drop_first(), b.drop_first());
    }
}

/// Sorting no later is transitive.
pub proof fn lemma_lex_le_trans(a: Seq<char>, b: Seq<char>, c: Seq<char>)
    requires
        lex_le(a, b),
        lex_le(b, c),
    ensures
        lex_le(a, c),
    decreases a.len(),
{
    if a.len() == 0 {
    } else if c.len() == 0 {
        assert(b.len() == 0);
    } else if b.len() == 0 {
    } else {
        let (x, y, z) = (a[0] as u32, b[0] as u32, c[0] as u32);
        assert(x <= y);
        assert(y <= z);
        if x == y && y == z {
            lemma_lex_le_trans(a.drop_first(), b.drop_first(), c.drop_first());
        }
    }
}

proof fn lemma_insert_multiset(s: Seq<Seq<char>>, i: int, x: Seq<char>)
    requires
        0 <= i <= s.len(),
    ensures
        s.insert(i, x).to_multiset() == s.to_multiset().insert(x),
{
    let a = s.take(i);
    let b = s.skip(i);
    assert(s =~= a + b);
    assert(s.insert(i, x) =~= a.push(x) + b);
    vstd::seq_lib::lemma_multiset_commutative(a, b);
    vstd::seq_lib::lemma_multiset_commutative(a.push(x), b);
    a.to_multiset_ensures();
}

/// The names of `v` in lexicographic order (a stable insertion sort).
pub fn sort_names(v: Vec<String>) -> (r: Vec<String>)
    ensures
        sorted_names(names_of(r@)),
        names_of(r@).to_multiset() == names_of(v@).to_multiset(),
        r@.len() == v@.len(),
{
    let mut out: Vec<String> = Vec::new();
    let mut k: usize = 0;
    proof {
        assert(names_of(out@) =~= names_of(v@).take(0));
    }
    while k < v.len()
        invariant
            k <= v@.len(),
            out@.len() == k,
            sorted_names(names_of(out@)),
            names_of(out@).to_multiset() == names_of(v@).take(k as int).to_multiset(),
        decreases v@.len() - k,
    {
        let x = &v[k];
        let mut p: usize = 0;
        while p < out.len() && !name_lt(x.as_str(), out[p].as_str())
            invariant
                p <= out@.len(),
                forall|q: int| 0 <= q < p ==> lex_le(#[trigger] out@[q]@, x@),
            decreases out@.len() - p,
        {
            p = p + 1;
        }
        let ghost before = names_of(out@);
        out.insert(p, x.clone());
        proof {
            assert(names_of(out@) =~= before.insert(p as int, x@));
            lemma_insert_multiset(before, p as int, x@);
            assert(names_of(v@).take(k + 1) =~= names_of(v@).take(k as int).push(x@));
            names_of(v@).take(k as int).to_multiset_ensures();
            let s = names_of(out@);
            assert forall|i: int, j: int| 0 <= i < j < s.len() implies lex_le(
                #[trigger] s[i],
                #[trigger] s[j],
            ) by {
                if p < before.len() {
                    assert(lex_lt(x@, before[p as int]));
                }
                if i < p && j < p {
                    assert(s[i] == before[i] && s[j] == before[j]);
                } else if i < p && j == p {
                    assert(s[i] == before[i]);
                    assert(lex_le(out@[i]@, x@));
                } else if i < p && j > p {
                    assert(s[i] == before[i] && s[j] == before[j - 1]);
                } else if i == p {
                    assert(s[j] == before[j - 1]);
                    assert(lex_lt(x@, before[p as int]));
                    if j - 1 > p {
                        assert(lex_le(before[p as int], before[j - 1]));
                        lemma_lex_total(x@, before[p as int]);
                        lemma_lex_le_trans(x@, before[p as int], before[j - 1]);
                    } else {
                        lemma_lex_total(x@, before[p as int]);
                    }
                } else {
                    assert(s[i] == before[i - 1] && s[j] == before[j - 1]);
                }
            }
        }
        k = k + 1;
    }
    proof {
        assert(names_of(v@).take(v@.len() as int) =~= names_of(v@));
    }
    out
}

} // verus!
