//! The order of strings (`String`'s `Ord`: code point by code point, a
//! proper prefix first), and sorting by it.

use vstd::prelude::*;

use crate::text::{chars_of, views};

verus! {

/// `a` sorts strictly before `b`, comparing from position `i` on.
pub open spec fn lex_lt_from(a: Seq<char>, b: Seq<char>, i: int) -> bool
    decreases a.len() - i,
{
    if i < 0 {
        false
    } else if i >= a.len() {
        i < b.len()
    } else if i >= b.len() {
        false
    } else if a[i] < b[i] {
        true
    } else if a[i] > b[i] {
        false
    } else {
        lex_lt_from(a, b, i + 1)
    }
}

/// `a < b` as `String` orders them.
pub open spec fn lex_lt(a: Seq<char>, b: Seq<char>) -> bool {
    lex_lt_from(a, b, 0)
}

pub proof fn lemma_lex_irreflexive(a: Seq<char>, i: int)
    requires
        0 <= i,
    ensures
        !lex_lt_from(a, a, i),
    decreases a.len() - i,
{
    if i < a.len() {
        lemma_lex_irreflexive(a, i + 1);
    }
}

pub proof fn lemma_lex_transitive(a: Seq<char>, b: Seq<char>, c: Seq<char>, i: int)
    requires
        0 <= i,
        lex_lt_from(a, b, i),
        lex_lt_from(b, c, i),
    ensures
        lex_lt_from(a, c, i),
    decreases a.len() - i,
{
    if i < a.len() && i < b.len() && i < c.len() && a[i] == b[i] && b[i] == c[i] {
        lemma_lex_transitive(a, b, c, i + 1);
    }
}

/// Neither sorts before the other only when they are equal from `i` on.
pub proof fn lemma_lex_total(a: Seq<char>, b: Seq<char>, i: int)
    requires
        0 <= i <= a.len(),
        i <= b.len(),
        !lex_lt_from(a, b, i),
        !lex_lt_from(b, a, i),
    ensures
        a.len() == b.len(),
        forall|j: int| i <= j < a.len() ==> a[j] == b[j],
    decreases a.len() - i,
{
    if i < a.len() && i < b.len() {
        lemma_lex_total(a, b, i + 1);
    }
}

pub proof fn lemma_lex_eq(a: Seq<char>, b: Seq<char>)
    requires
        !lex_lt(a, b),
        !lex_lt(b, a),
    ensures
        a == b,
{
    lemma_lex_total(a, b, 0);
    assert(a =~= b);
}

pub proof fn lemma_lex_asym(a: Seq<char>, b: Seq<char>)
    requires
        lex_lt(a, b),
    ensures
        !lex_lt(b, a),
{
    if lex_lt(b, a) {
        lemma_lex_transitive(a, b, a, 0);
        lemma_lex_irreflexive(a, 0);
    }
}

/// `a < b` and `b <= c` give `a < c`.
pub proof fn lemma_lex_lt_le(a: Seq<char>, b: Seq<char>, c: Seq<char>)
    requires
        lex_lt(a, b),
        !lex_lt(c, b),
    ensures
        lex_lt(a, c),
{
    if b == c {
    } else if lex_lt(b, c) {
        lemma_lex_transitive(a, b, c, 0);
    } else {
        lemma_lex_eq(b, c);
    }
}

/// Does `a` sort strictly before `b`?
pub fn lex_less(a: &Vec<char>, b: &Vec<char>) -> (r: bool)
    ensures
        r == lex_lt(a@, b@),
{
    let mut i: usize = 0;
    while i < a.len() && i < b.len() && a[i] == b[i]
        invariant
            i <= a@.len(),
            i <= b@.len(),
            lex_lt(a@, b@) == lex_lt_from(a@, b@, i as int),
        decreases a@.len() - i,
    {
        i = i + 1;
    }
    if i >= a.len() {
        i < b.len()
    } else if i >= b.len() {
        false
    } else {
        a[i] < b[i]
    }
}

/// Every element sorts strictly before every later one: sorted, no
/// element twice.
pub open spec fn strictly_sorted(s: Seq<Seq<char>>) -> bool {
    forall|i: int, j: int| 0 <= i < j < s.len() ==> lex_lt(#[trigger] s[i], #[trigger] s[j])
}

/// The strings of `v`, sorted, each once: what `sort` then `dedup` leave.
pub fn sorted_unique(v: Vec<String>) -> (r: Vec<String>)
    ensures
        strictly_sorted(views(r@)),
        views(r@).to_set() == views(v@).to_set(),
{
    let mut out: Vec<String> = Vec::new();
    let mut i: usize = 0;
    while i < v.len()
        invariant
            i <= v@.len(),
            strictly_sorted(views(out@)),
            views(out@).to_set() == views(v@.subrange(0, i as int)).to_set(),
        decreases v@.len() - i,
    {
        let key = chars_of(v[i].as_str());
        let mut k: usize = 0;
        while k < out.len() && lex_less(&chars_of(out[k].as_str()), &key)
            invariant
                k <= out@.len(),
                forall|j: int| 0 <= j < k ==> lex_lt(#[trigger] out@[j]@, key@),
            decreases out@.len() - k,
        {
            k = k + 1;
        }
        let ghost before = views(out@);
        assert(views(v@.subrange(0, i + 1)) =~= views(v@.subrange(0, i as int)).push(key@));
        proof {
            views(v@.subrange(0, i as int)).lemma_push_to_set_commute(key@);
        }
        if k < out.len() && !lex_less(&key, &chars_of(out[k].as_str())) {
            proof {
                lemma_lex_eq(out@[k as int]@, key@);
                assert(before[k as int] == key@);
                assert(before.to_set().contains(key@));
                assert(before.to_set().insert(key@) =~= before.to_set());
            }
        } else {
            let ghost old_out = out@;
            out.insert(k, v[i].clone());
            proof {
                assert(views(out@) =~= before.insert(k as int, key@));
                let s = views(out@);
                assert forall|a: int, b: int| 0 <= a < b < s.len() implies lex_lt(
                    #[trigger] s[a],
                    #[trigger] s[b],
                ) by {
                    if b < k {
                        assert(s[a] == before[a] && s[b] == before[b]);
                    } else if b == k {
                        assert(s[a] == before[a]);
                    } else if a == k {
                        assert(s[b] == before[b - 1]);
                        if b - 1 > k {
                            assert(lex_lt(before[k as int], before[b - 1]));
                            lemma_lex_transitive(key@, before[k as int], before[b - 1], 0);
                        } else {
                            assert(!lex_lt(before[k as int], key@));
                            if lex_lt(key@, before[k as int]) {
                            } else {
                                lemma_lex_eq(before[k as int], key@);
                            }
                        }
                    } else if a < k {
                        assert(s[a] == before[a] && s[b] == before[b - 1]);
                    } else {
                        assert(s[a] == before[a - 1] && s[b] == before[b - 1]);
                    }
                }
                assert(s.to_set() =~= before.to_set().insert(key@)) by {
                    assert forall|x: Seq<char>| s.to_set().contains(x) <==> before.to_set().insert(
                        key@,
                    ).contains(x) by {
                        if s.to_set().contains(x) {
                            let j = choose|j: int| 0 <= j < s.len() && s[j] == x;
                            if j < k {
                                assert(before[j] == x);
                            } else if j > k {
                                assert(before[j - 1] == x);
                            }
                        }
                        if before.to_set().contains(x) {
                            let j = choose|j: int| 0 <= j < before.len() && before[j] == x;
                            if j < k {
                                assert(s[j] == x);
                            } else {
                                assert(s[j + 1] == x);
                            }
                        }
                        if x == key@ {
                            assert(s[k as int] == x);
                        }
                    }
                }
            }
        }
        i = i + 1;
    }
    assert(v@.subrange(0, i as int) =~= v@);
    out
}

/// Values that carry a name to sort by.
pub trait Named {
    spec fn name_view(&self) -> Seq<char>;

    fn name_chars(&self) -> (r: Vec<char>)
        ensures
            r@ == self.name_view(),
    ;
}

/// Names never decrease along `s`.
pub open spec fn sorted_by_name<T: Named>(s: Seq<T>) -> bool {
    forall|i: int, j: int|
        0 <= i < j < s.len() ==> !lex_lt(#[trigger] s[j].name_view(), #[trigger] s[i].name_view())
}

/// `sorted` arranges `orig` by the positions `p`: each element of `sorted`
/// is the element of `orig` at its position, no position is used twice,
/// and elements with equal names keep their original order.
pub open spec fn stable_arrangement<T: Named>(p: Seq<int>, orig: Seq<T>, sorted: Seq<T>) -> bool {
    &&& p.len() == sorted.len()
    &&& sorted.len() == orig.len()
    &&& forall|j: int|
        0 <= j < p.len() ==> 0 <= #[trigger] p[j] < orig.len() && sorted[j] == orig[p[j]]
    &&& forall|a: int, b: int| 0 <= a < b < p.len() ==> #[trigger] p[a] != #[trigger] p[b]
    &&& forall|a: int, b: int|
        0 <= a < b < p.len() && (#[trigger] sorted[a]).name_view() == (#[trigger] sorted[b]).name_view()
            ==> p[a] < p[b]
}

/// Sorts by name, equal names keeping their order (`sort_by` on the name).
pub fn sort_by_name<T: Named>(v: Vec<T>) -> (r: Vec<T>)
    ensures
        sorted_by_name(r@),
        r@.to_multiset() == v@.to_multiset(),
        exists|p: Seq<int>| stable_arrangement(p, v@, r@),
{
    broadcast use vstd::seq_lib::group_to_multiset_ensures;
    broadcast use vstd::multiset::group_multiset_axioms;
    let ghost orig = v@;
    let mut rest = v;
    let mut out: Vec<T> = Vec::new();
    let ghost mut perm: Seq<int> = Seq::empty();
    assert(out@.to_multiset().add(rest@.to_multiset()) =~= orig.to_multiset());
    assert(rest@ =~= orig.subrange(0, orig.len() as int));
    while rest.len() > 0
        invariant
            sorted_by_name(out@),
            out@.to_multiset().add(rest@.to_multiset()) == orig.to_multiset(),
            out@.len() <= orig.len(),
            rest@ == orig.subrange(out@.len() as int, orig.len() as int),
            perm.len() == out@.len(),
            forall|j: int|
                0 <= j < perm.len() ==> 0 <= #[trigger] perm[j] < out@.len() && out@[j]
                    == orig[perm[j]],
            forall|a: int, b: int| 0 <= a < b < perm.len() ==> #[trigger] perm[a] != #[trigger] perm[b],
            forall|a: int, b: int|
                0 <= a < b < perm.len() && (#[trigger] out@[a]).name_view() == (
                #[trigger] out@[b]).name_view() ==> perm[a] < perm[b],
        decreases rest@.len(),
    {
        let ghost rest0 = rest@;
        let ghost n = out@.len() as int;
        let x = rest.remove(0);
        proof {
            vstd::seq_lib::to_multiset_remove(rest0, 0);
            assert(rest0.to_multiset().count(x) > 0) by {
                vstd::seq_lib::to_multiset_contains(rest0, x);
            }
            assert(x == orig[n]);
            assert(rest@ =~= orig.subrange(n + 1, orig.len() as int));
        }
        let key = x.name_chars();
        let mut k: usize = 0;
        while k < out.len() && !lex_less(&key, &out[k].name_chars())
            invariant
                k <= out@.len(),
                key@ == x.name_view(),
                forall|j: int| 0 <= j < k ==> !lex_lt(key@, #[trigger] out@[j].name_view()),
            decreases out@.len() - k,
        {
            k = k + 1;
        }
        let ghost before = out@;
        let ghost perm0 = perm;
        out.insert(k, x);
        proof {
            perm = perm0.insert(k as int, n);
            vstd::seq_lib::to_multiset_insert(before, k as int, x);
            let s = out@;
            assert(s =~= before.insert(k as int, x));
            assert forall|a: int, b: int| 0 <= a < b < s.len() implies !lex_lt(
                #[trigger] s[b].name_view(),
                #[trigger] s[a].name_view(),
            ) by {
                if b < k {
                    assert(s[a] == before[a] && s[b] == before[b]);
                } else if b == k {
                    assert(s[a] == before[a]);
                } else if a == k {
                    assert(s[b] == before[b - 1]);
                    assert(lex_lt(key@, before[k as int].name_view()));
                    if b - 1 > k {
                        assert(!lex_lt(before[b - 1].name_view(), before[k as int].name_view()));
                    } else {
                        lemma_lex_irreflexive(before[k as int].name_view(), 0);
                    }
                    lemma_lex_lt_le(key@, before[k as int].name_view(), before[b - 1].name_view());
                    lemma_lex_asym(key@, before[b - 1].name_view());
                } else if a < k {
                    assert(s[a] == before[a] && s[b] == before[b - 1]);
                } else {
                    assert(s[a] == before[a - 1] && s[b] == before[b - 1]);
                }
            }
            assert forall|j: int| 0 <= j < perm.len() implies 0 <= #[trigger] perm[j] < s.len()
                && s[j] == orig[perm[j]] by {
                if j < k {
                    assert(perm[j] == perm0[j] && s[j] == before[j]);
                } else if j > k {
                    assert(perm[j] == perm0[j - 1] && s[j] == before[j - 1]);
                }
            }
            assert forall|a: int, b: int| 0 <= a < b < perm.len() implies #[trigger] perm[a]
                != #[trigger] perm[b] by {
                if a < k && b < k {
                    assert(perm[a] == perm0[a] && perm[b] == perm0[b]);
                } else if a < k && b > k {
                    assert(perm[a] == perm0[a] && perm[b] == perm0[b - 1]);
                } else if a > k {
                    assert(perm[a] == perm0[a - 1] && perm[b] == perm0[b - 1]);
                } else if a == k {
                    assert(perm[b] == perm0[b - 1]);
                } else {
                    assert(perm[a] == perm0[a]);
                }
            }
            assert forall|a: int, b: int|
                0 <= a < b < perm.len() && (#[trigger] s[a]).name_view() == (
                #[trigger] s[b]).name_view() implies perm[a] < perm[b] by {
                if b < k {
                    assert(s[a] == before[a] && s[b] == before[b]);
                    assert(perm[a] == perm0[a] && perm[b] == perm0[b]);
                } else if b == k {
                    assert(perm[a] == perm0[a]);
                } else if a == k {
                    assert(s[b] == before[b - 1]);
                    assert(lex_lt(key@, before[k as int].name_view()));
                    if b - 1 > k {
                        assert(!lex_lt(before[b - 1].name_view(), before[k as int].name_view()));
                    } else {
                        lemma_lex_irreflexive(before[k as int].name_view(), 0);
                    }
                    lemma_lex_lt_le(key@, before[k as int].name_view(), before[b - 1].name_view());
                    lemma_lex_irreflexive(key@, 0);
                } else if a < k {
                    assert(s[a] == before[a] && s[b] == before[b - 1]);
                    assert(perm[a] == perm0[a] && perm[b] == perm0[b - 1]);
                } else {
                    assert(s[a] == before[a - 1] && s[b] == before[b - 1]);
                    assert(perm[a] == perm0[a - 1] && perm[b] == perm0[b - 1]);
                }
            }
            assert(out@.to_multiset().add(rest@.to_multiset()) =~= orig.to_multiset());
        }
    }
    assert(rest@.to_multiset() =~= vstd::multiset::Multiset::<T>::empty());
    assert(out@.to_multiset().add(rest@.to_multiset()) =~= out@.to_multiset());
    assert(stable_arrangement(perm, orig, out@));
    out
}

} // verus!
