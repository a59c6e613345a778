//! Character-level string operations with their meaning stated over
//! `Seq<char>`.

use vstd::prelude::*;

verus! {

/// `pat` occurs in `s` starting at position `i`.
pub open spec fn occurs_at(s: Seq<char>, pat: Seq<char>, i: int) -> bool {
    0 <= i && i + pat.len() <= s.len() && s.subrange(i, i + pat.len()) == pat
}

/// `p` is a prefix of `s`.
pub open spec fn has_prefix(s: Seq<char>, p: Seq<char>) -> bool {
    occurs_at(s, p, 0)
}

/// What `str::strip_prefix` gives back.
pub open spec fn strip_prefix_of(s: Seq<char>, p: Seq<char>) -> Option<Seq<char>> {
    if has_prefix(s, p) {
        Some(s.subrange(p.len() as int, s.len() as int))
    } else {
        None
    }
}

/// `pat` occurs somewhere in `s` (the empty pattern occurs everywhere).
pub open spec fn contains_seq(s: Seq<char>, pat: Seq<char>) -> bool {
    exists|i: int| occurs_at(s, pat, i)
}

/// The characters of a string slice, in order.
pub fn chars_of(s: &str) -> (v: Vec<char>)
    ensures
        v@ == s@,
{
    broadcast use vstd::string::axiom_spec_iter;
    let mut v: Vec<char> = Vec::new();
    for c in it: s.chars()
        invariant
            it.seq() == s@,
            v@ == it.seq().subrange(0, it.index() as int),
    {
        v.push(c);
    }
    v
}

/// `String::push`: the character is appended.
#[verifier::external_body]
fn push_char(s: &mut String, c: char)
    ensures
        final(s)@ == old(s)@.push(c),
{
    s.push(c);
}

/// The string made of the given characters, in order.
pub fn string_of(v: &[char]) -> (s: String)
    ensures
        s@ == v@,
{
    let mut s = String::new();
    let mut i: usize = 0;
    while i < v.len()
        invariant
            i <= v@.len(),
            s@ == v@.subrange(0, i as int),
        decreases v@.len() - i,
    {
        push_char(&mut s, v[i]);
        i = i + 1;
        assert(s@ =~= v@.subrange(0, i as int));
    }
    assert(v@.subrange(0, i as int) =~= v@);
    s
}

/// The characters `v[from..to]`.
pub fn sub_chars(v: &Vec<char>, from: usize, to: usize) -> (r: Vec<char>)
    requires
        from <= to <= v@.len(),
    ensures
        r@ == v@.subrange(from as int, to as int),
{
    let mut r: Vec<char> = Vec::new();
    let mut i = from;
    while i < to
        invariant
            from <= i <= to <= v@.len(),
            r@ == v@.subrange(from as int, i as int),
        decreases to - i,
    {
        r.push(v[i]);
        i = i + 1;
        assert(r@ =~= v@.subrange(from as int, i as int));
    }
    r
}

/// Does `pat` occur in `s` at position `i`?
pub fn occurs_at_exec(s: &Vec<char>, pat: &Vec<char>, i: usize) -> (r: bool)
    ensures
        r == occurs_at(s@, pat@, i as int),
{
    if i > s.len() || pat.len() > s.len() - i {
        return false;
    }
    let mut k: usize = 0;
    while k < pat.len()
        invariant
            i + pat@.len() <= s@.len(),
            s@.len() == s.len(),
            k <= pat@.len(),
            forall|j: int| 0 <= j < k ==> s@[i + j] == pat@[j],
        decreases pat@.len() - k,
    {
        if s[i + k] != pat[k] {
            assert(s@.subrange(i as int, i + pat@.len())[k as int] != pat@[k as int]);
            return false;
        }
        k = k + 1;
    }
    assert(s@.subrange(i as int, i + pat@.len()) =~= pat@);
    true
}

/// `str::strip_prefix`, giving an owned string.
pub fn strip_prefix(s: &str, p: &str) -> (r: Option<String>)
    ensures
        r matches Some(x) ==> strip_prefix_of(s@, p@) == Some(x@),
        r is None ==> strip_prefix_of(s@, p@) is None,
{
    let sv = chars_of(s);
    let pv = chars_of(p);
    if occurs_at_exec(&sv, &pv, 0) {
        let rest = sub_chars(&sv, pv.len(), sv.len());
        Some(string_of(rest.as_slice()))
    } else {
        None
    }
}


/// First position at or after `i` where `pat` occurs.
pub open spec fn find_from(s: Seq<char>, pat: Seq<char>, i: int) -> Option<int>
    decreases s.len() + 1 - i,
{
    if i < 0 || i + pat.len() > s.len() {
        None
    } else if occurs_at(s, pat, i) {
        Some(i)
    } else {
        find_from(s, pat, i + 1)
    }
}

/// What `str::find` gives back, counted in characters.
pub open spec fn find_seq(s: Seq<char>, pat: Seq<char>) -> Option<int> {
    find_from(s, pat, 0)
}

pub proof fn lemma_find_from(s: Seq<char>, pat: Seq<char>, i: int)
    requires
        0 <= i,
    ensures
        find_from(s, pat, i) matches Some(k) ==> i <= k && occurs_at(s, pat, k) && forall|j: int|
            i <= j < k ==> !occurs_at(s, pat, j),
        find_from(s, pat, i) is None ==> forall|j: int| i <= j ==> !occurs_at(s, pat, j),
    decreases s.len() + 1 - i,
{
    if i + pat.len() > s.len() {
    } else if occurs_at(s, pat, i) {
    } else {
        lemma_find_from(s, pat, i + 1);
    }
}

pub proof fn lemma_find_seq(s: Seq<char>, pat: Seq<char>)
    ensures
        find_seq(s, pat) matches Some(k) ==> 0 <= k && occurs_at(s, pat, k) && forall|j: int|
            0 <= j < k ==> !occurs_at(s, pat, j),
        find_seq(s, pat) is Some <==> contains_seq(s, pat),
{
    lemma_find_from(s, pat, 0);
    if let Some(k) = find_seq(s, pat) {
        assert(occurs_at(s, pat, k));
    }
}

/// Position of the first occurrence of `pat` in `s`.
pub fn find_chars(s: &Vec<char>, pat: &Vec<char>) -> (r: Option<usize>)
    ensures
        match r {
            Some(k) => find_seq(s@, pat@) == Some(k as int),
            None => find_seq(s@, pat@) is None,
        },
{
    if pat.len() > s.len() {
        return None;
    }
    let last = s.len() - pat.len();
    let mut i: usize = 0;
    loop
        invariant
            last + pat@.len() == s@.len(),
            i <= last,
            find_seq(s@, pat@) == find_from(s@, pat@, i as int),
        decreases last - i,
    {
        if occurs_at_exec(s, pat, i) {
            return Some(i);
        }
        if i == last {
            assert(find_from(s@, pat@, i + 1) is None);
            return None;
        }
        i = i + 1;
    }
}

/// `str::contains`.
pub fn contains(s: &str, pat: &str) -> (r: bool)
    ensures
        r == contains_seq(s@, pat@),
{
    let sv = chars_of(s);
    let pv = chars_of(pat);
    proof {
        lemma_find_seq(sv@, pv@);
    }
    find_chars(&sv, &pv).is_some()
}

/// `str::find`, counted in characters.
pub fn find(s: &str, pat: &str) -> (r: Option<usize>)
    ensures
        match r {
            Some(k) => find_seq(s@, pat@) == Some(k as int),
            None => find_seq(s@, pat@) is None,
        },
{
    let sv = chars_of(s);
    let pv = chars_of(pat);
    find_chars(&sv, &pv)
}

/// Equality of the characters of two string slices.
pub fn str_eq(a: &str, b: &str) -> (r: bool)
    ensures
        r == (a@ == b@),
{
    let av = chars_of(a);
    let bv = chars_of(b);
    if av.len() != bv.len() {
        return false;
    }
    let r = occurs_at_exec(&av, &bv, 0);
    proof {
        if r {
            assert(av@.subrange(0, bv@.len() as int) =~= av@);
        } else {
            assert(!(av@ =~= bv@) ==> av@ != bv@);
            if av@ == bv@ {
                assert(av@.subrange(0, bv@.len() as int) =~= av@);
            }
        }
    }
    r
}

/// `str::starts_with`.
pub fn starts_with(s: &str, p: &str) -> (r: bool)
    ensures
        r == has_prefix(s@, p@),
{
    let sv = chars_of(s);
    let pv = chars_of(p);
    occurs_at_exec(&sv, &pv, 0)
}

/// `s` with every occurrence of the non-empty `from`, taken left to right
/// without overlap, replaced by `to`.
pub open spec fn replace_seq(s: Seq<char>, from: Seq<char>, to: Seq<char>) -> Seq<char>
    decreases s.len(),
{
    if from.len() == 0 || s.len() < from.len() {
        s
    } else if has_prefix(s, from) {
        to + replace_seq(s.subrange(from.len() as int, s.len() as int), from, to)
    } else {
        seq![s[0]] + replace_seq(s.subrange(1, s.len() as int), from, to)
    }
}

/// An occurrence in a suffix is an occurrence in the whole.
pub proof fn lemma_occurs_in_suffix(s: Seq<char>, pat: Seq<char>, m: int, k: int)
    requires
        0 <= m <= s.len(),
        occurs_at(s.subrange(m, s.len() as int), pat, k),
    ensures
        occurs_at(s, pat, k + m),
{
    assert(s.subrange(m, s.len() as int).subrange(k, k + pat.len()) =~= s.subrange(
        k + m,
        k + m + pat.len(),
    ));
}

/// Replacing copies `s` unchanged up to the first occurrence of `from`.
pub proof fn lemma_replace_from(s: Seq<char>, from: Seq<char>, to: Seq<char>, j: int)
    requires
        from.len() > 0,
        0 <= j <= s.len(),
        forall|i: int| 0 <= i < j ==> !occurs_at(s, from, i),
    ensures
        replace_seq(s, from, to) == s.subrange(0, j) + replace_seq(
            s.subrange(j, s.len() as int),
            from,
            to,
        ),
    decreases j,
{
    if j == 0 {
        assert(s.subrange(0, 0) + s.subrange(0, s.len() as int) =~= s);
        assert(s.subrange(0, s.len() as int) =~= s);
    } else if s.len() < from.len() {
        let t = s.subrange(j, s.len() as int);
        assert(replace_seq(t, from, to) == t);
        assert(s.subrange(0, j) + t =~= s);
    } else {
        assert(!occurs_at(s, from, 0));
        let s1 = s.subrange(1, s.len() as int);
        assert forall|i: int| 0 <= i < j - 1 implies !occurs_at(s1, from, i) by {
            if occurs_at(s1, from, i) {
                lemma_occurs_in_suffix(s, from, 1, i);
            }
        }
        lemma_replace_from(s1, from, to, j - 1);
        assert(s1.subrange(j - 1, s1.len() as int) =~= s.subrange(j, s.len() as int));
        assert(seq![s[0]] + s1.subrange(0, j - 1) =~= s.subrange(0, j));
    }
}

/// Replacing a pattern that does not occur changes nothing.
pub proof fn lemma_replace_absent(s: Seq<char>, from: Seq<char>, to: Seq<char>)
    requires
        from.len() > 0,
        !contains_seq(s, from),
    ensures
        replace_seq(s, from, to) == s,
{
    lemma_replace_from(s, from, to, s.len() as int);
    assert(s.subrange(s.len() as int, s.len() as int) =~= Seq::<char>::empty());
    assert(s.subrange(0, s.len() as int) =~= s);
}

/// Replacing copies `s` up to the first occurrence of `from`, writes `to`,
/// and goes on after the occurrence.
pub proof fn lemma_replace_first(s: Seq<char>, from: Seq<char>, to: Seq<char>, j: int)
    requires
        from.len() > 0,
        find_seq(s, from) == Some(j),
    ensures
        0 <= j && j + from.len() <= s.len(),
        replace_seq(s, from, to) == s.subrange(0, j) + to + replace_seq(
            s.subrange(j + from.len(), s.len() as int),
            from,
            to,
        ),
{
    lemma_find_seq(s, from);
    lemma_replace_from(s, from, to, j);
    let t = s.subrange(j, s.len() as int);
    assert(t.subrange(0, from.len() as int) =~= s.subrange(j, j + from.len()));
    assert(has_prefix(t, from));
    assert(t.subrange(from.len() as int, t.len() as int) =~= s.subrange(
        j + from.len(),
        s.len() as int,
    ));
}

/// No character of `s` is `c`.
pub open spec fn free_of(s: Seq<char>, c: char) -> bool {
    forall|i: int| 0 <= i < s.len() ==> s[i] != c
}

/// Some character of `p[i..i + n]` is `c`.
pub open spec fn holds_char(p: Seq<char>, c: char, i: int, n: int) -> bool {
    exists|j: int| i <= j < i + n && p[j] == c
}

/// Every `n` consecutive characters of `p` hold a `c`.
pub open spec fn gaps_shorter(p: Seq<char>, c: char, n: int) -> bool {
    forall|i: int| 0 <= i && i + n <= p.len() ==> #[trigger] holds_char(p, c, i, n)
}

/// `c`, the rest of `s` replaced, cannot start an occurrence of `pat` when
/// `s` has none and `s` does not start with `from`.
proof fn lemma_replaced_head(
    s: Seq<char>,
    from: Seq<char>,
    to: Seq<char>,
    pat: Seq<char>,
    c: char,
)
    requires
        from.len() > 0,
        pat.len() > 0,
        pat.last() == c,
        free_of(to, c),
        gaps_shorter(pat, c, to.len() as int),
        !contains_seq(s, pat),
        s.len() > 0,
    ensures
        !occurs_at(seq![s[0]] + replace_seq(s.subrange(1, s.len() as int), from, to), pat, 0),
{
    let s1 = s.subrange(1, s.len() as int);
    let r = seq![s[0]] + replace_seq(s1, from, to);
    if occurs_at(r, pat, 0) {
        lemma_find_seq(s1, from);
        match find_seq(s1, from) {
            None => {
                lemma_replace_absent(s1, from, to);
                assert(r =~= s);
                assert(occurs_at(s, pat, 0));
            },
            Some(j) => {
                lemma_replace_first(s1, from, to, j);
                let tail = replace_seq(s1.subrange(j + from.len(), s1.len() as int), from, to);
                assert(r =~= seq![s[0]] + s1.subrange(0, j) + to + tail);
                if 1 + j >= pat.len() {
                    assert(r.subrange(0, pat.len() as int) =~= s.subrange(0, pat.len() as int));
                    assert(occurs_at(s, pat, 0));
                } else if 1 + j + to.len() <= pat.len() {
                    assert(holds_char(pat, c, 1 + j, to.len() as int));
                    let jj = choose|jj: int| 1 + j <= jj < 1 + j + to.len() && pat[jj] == c;
                    assert(r.subrange(0, pat.len() as int)[jj] == pat[jj]);
                    assert(r[jj] == to[jj - 1 - j]);
                } else {
                    let last = pat.len() - 1;
                    assert(r.subrange(0, pat.len() as int)[last] == pat[last]);
                    assert(r[last] == to[last - 1 - j]);
                }
            },
        }
    }
}

/// Replacing by a text without `c` creates no occurrence of a pattern that
/// starts and ends with `c` and has a `c` in every stretch as long as that
/// text.
pub proof fn lemma_replace_creates_none(
    s: Seq<char>,
    from: Seq<char>,
    to: Seq<char>,
    pat: Seq<char>,
    c: char,
)
    requires
        from.len() > 0,
        pat.len() > 0,
        pat[0] == c,
        pat.last() == c,
        free_of(to, c),
        gaps_shorter(pat, c, to.len() as int),
        !contains_seq(s, pat),
    ensures
        !contains_seq(replace_seq(s, from, to), pat),
    decreases s.len(),
{
    let r = replace_seq(s, from, to);
    if s.len() < from.len() {
    } else if has_prefix(s, from) {
        let rest = s.subrange(from.len() as int, s.len() as int);
        assert forall|k: int| !occurs_at(rest, pat, k) by {
            if occurs_at(rest, pat, k) {
                lemma_occurs_in_suffix(s, pat, from.len() as int, k);
            }
        }
        lemma_replace_creates_none(rest, from, to, pat, c);
        let rr = replace_seq(rest, from, to);
        assert(r == to + rr);
        assert forall|k: int| !occurs_at(r, pat, k) by {
            if occurs_at(r, pat, k) {
                if k >= to.len() {
                    assert(r.subrange(k, k + pat.len()) =~= rr.subrange(
                        k - to.len(),
                        k - to.len() + pat.len(),
                    ));
                    assert(occurs_at(rr, pat, k - to.len()));
                } else {
                    assert(r.subrange(k, k + pat.len())[0] == r[k]);
                    assert(r[k] == to[k]);
                }
            }
        }
    } else {
        let s1 = s.subrange(1, s.len() as int);
        assert forall|k: int| !occurs_at(s1, pat, k) by {
            if occurs_at(s1, pat, k) {
                lemma_occurs_in_suffix(s, pat, 1, k);
            }
        }
        lemma_replace_creates_none(s1, from, to, pat, c);
        let rr = replace_seq(s1, from, to);
        assert(r == seq![s[0]] + rr);
        lemma_replaced_head(s, from, to, pat, c);
        assert forall|k: int| !occurs_at(r, pat, k) by {
            if occurs_at(r, pat, k) && k >= 1 {
                assert(r.subrange(k, k + pat.len()) =~= rr.subrange(k - 1, k - 1 + pat.len()));
                assert(occurs_at(rr, pat, k - 1));
            }
        }
    }
}

/// Inserting a block that starts and ends with a character the pattern
/// lacks, and in which the pattern's first two characters never stand side
/// by side, creates no occurrence of the pattern.
pub proof fn lemma_insert_creates_none(a: Seq<char>, b: Seq<char>, h: Seq<char>, pat: Seq<char>, nl: char)
    requires
        !contains_seq(a + b, pat),
        h.len() > 0,
        h[0] == nl,
        h.last() == nl,
        free_of(pat, nl),
        pat.len() >= 2,
        forall|i: int| 0 <= i < h.len() - 1 ==> !(#[trigger] h[i] == pat[0] && h[i + 1] == pat[1]),
    ensures
        !contains_seq(a + h + b, pat),
{
    let r = a + h + b;
    let ab = a + b;
    assert forall|k: int| !occurs_at(r, pat, k) by {
        if occurs_at(r, pat, k) {
            let w = r.subrange(k, k + pat.len());
            if k + pat.len() <= a.len() {
                assert(w =~= ab.subrange(k, k + pat.len()));
                assert(occurs_at(ab, pat, k));
            } else if k >= a.len() + h.len() {
                assert(w =~= ab.subrange(k - h.len(), k - h.len() + pat.len()));
                assert(occurs_at(ab, pat, k - h.len()));
            } else if k < a.len() {
                assert(w[a.len() - k] == r[a.len() as int]);
                assert(r[a.len() as int] == h[0]);
            } else if k + 1 < a.len() + h.len() {
                let i = k - a.len();
                assert(w[0] == r[k] && r[k] == h[i]);
                assert(w[1] == r[k + 1] && r[k + 1] == h[i + 1]);
            } else {
                assert(w[0] == r[k] && r[k] == h.last());
                assert(pat[0] != nl);
            }
        }
    }
}

/// `str::replace` for a non-empty pattern.
pub fn replace(s: &str, from: &str, to: &str) -> (r: String)
    requires
        from@.len() > 0,
    ensures
        r@ == replace_seq(s@, from@, to@),
{
    let sv = chars_of(s);
    let fv = chars_of(from);
    let tv = chars_of(to);
    let mut out: Vec<char> = Vec::new();
    let mut i: usize = 0;
    assert(sv@.subrange(0, sv@.len() as int) =~= sv@);
    assert(out@ + sv@ =~= sv@);
    while i < sv.len()
        invariant
            fv@.len() > 0,
            i <= sv@.len(),
            sv@.len() == sv.len(),
            out@ + replace_seq(sv@.subrange(i as int, sv@.len() as int), fv@, tv@) == replace_seq(
                sv@,
                fv@,
                tv@,
            ),
        decreases sv@.len() - i,
    {
        let ghost rest = sv@.subrange(i as int, sv@.len() as int);
        if occurs_at_exec(&sv, &fv, i) {
            assert(rest.subrange(0, fv@.len() as int) =~= sv@.subrange(
                i as int,
                i + fv@.len(),
            ));
            assert(rest.subrange(fv@.len() as int, rest.len() as int) =~= sv@.subrange(
                i + fv@.len(),
                sv@.len() as int,
            ));
            let mut k: usize = 0;
            let ghost out0 = out@;
            while k < tv.len()
                invariant
                    k <= tv@.len(),
                    out@ == out0 + tv@.subrange(0, k as int),
                decreases tv@.len() - k,
            {
                out.push(tv[k]);
                k = k + 1;
                assert(out@ =~= out0 + tv@.subrange(0, k as int));
            }
            assert(tv@.subrange(0, tv@.len() as int) =~= tv@);
            assert(out@ + replace_seq(
                sv@.subrange(i + fv@.len(), sv@.len() as int),
                fv@,
                tv@,
            ) =~= out0 + replace_seq(rest, fv@, tv@));
            i = i + fv.len();
        } else {
            if sv.len() - i >= fv.len() {
                assert(!has_prefix(rest, fv@)) by {
                    if has_prefix(rest, fv@) {
                        assert(rest.subrange(0, fv@.len() as int) =~= sv@.subrange(
                            i as int,
                            i + fv@.len(),
                        ));
                    }
                }
                assert(rest.subrange(1, rest.len() as int) =~= sv@.subrange(
                    i + 1,
                    sv@.len() as int,
                ));
                assert(out@.push(sv@[i as int]) + replace_seq(
                    sv@.subrange(i + 1, sv@.len() as int),
                    fv@,
                    tv@,
                ) =~= out@ + replace_seq(rest, fv@, tv@));
            } else {
                assert(replace_seq(rest, fv@, tv@) == rest);
                let ghost rest1 = sv@.subrange(i + 1, sv@.len() as int);
                assert(replace_seq(rest1, fv@, tv@) == rest1);
                assert(out@.push(sv@[i as int]) + rest1 =~= out@ + rest);
            }
            out.push(sv[i]);
            i = i + 1;
        }
    }
    assert(sv@.subrange(i as int, sv@.len() as int) =~= Seq::<char>::empty());
    assert(out@ + Seq::<char>::empty() =~= out@);
    string_of(out.as_slice())
}


/// `char::to_ascii_lowercase`.
pub open spec fn lower_char(c: char) -> char {
    if 'A' <= c && c <= 'Z' {
        ((c as u32) + 32) as char
    } else {
        c
    }
}

/// `str::to_ascii_lowercase`.
pub open spec fn ascii_lower_seq(s: Seq<char>) -> Seq<char> {
    s.map_values(|c: char| lower_char(c))
}

/// Lowercasing twice is lowercasing once.
pub proof fn lemma_ascii_lower_idempotent(s: Seq<char>)
    ensures
        ascii_lower_seq(ascii_lower_seq(s)) == ascii_lower_seq(s),
{
    assert forall|i: int| 0 <= i < s.len() implies #[trigger] lower_char(lower_char(s[i])) == lower_char(
        s[i],
    ) by {
        let c = s[i];
        if 'A' <= c && c <= 'Z' {
            assert(((c as u32) + 32) as char as u32 == (c as u32) + 32);
        }
    }
    assert(ascii_lower_seq(ascii_lower_seq(s)) =~= ascii_lower_seq(s));
}

/// A text without ASCII capitals lowercases to itself.
pub proof fn lemma_ascii_lower_of_lower(s: Seq<char>)
    requires
        forall|i: int| 0 <= i < s.len() ==> !('A' <= #[trigger] s[i] && s[i] <= 'Z'),
    ensures
        ascii_lower_seq(s) == s,
{
    assert(ascii_lower_seq(s) =~= s);
}

pub fn lower_char_exec(c: char) -> (r: char)
    ensures
        r == lower_char(c),
{
    if 'A' <= c && c <= 'Z' {
        let b = c as u8;
        ((b + 32) as char)
    } else {
        c
    }
}

/// `str::to_ascii_lowercase`.
pub fn ascii_lower(s: &str) -> (r: String)
    ensures
        r@ == ascii_lower_seq(s@),
{
    let v = chars_of(s);
    let mut out: Vec<char> = Vec::new();
    let mut i: usize = 0;
    while i < v.len()
        invariant
            i <= v@.len(),
            out@ == ascii_lower_seq(v@.subrange(0, i as int)),
        decreases v@.len() - i,
    {
        out.push(lower_char_exec(v[i]));
        i = i + 1;
        assert(out@ =~= ascii_lower_seq(v@.subrange(0, i as int)));
    }
    assert(v@.subrange(0, v@.len() as int) =~= v@);
    string_of(out.as_slice())
}

/// What `str::to_uppercase` gives back for the given characters: the full
/// Unicode uppercase mapping of each character, concatenated.
pub uninterp spec fn unicode_upper(s: Seq<char>) -> Seq<char>;

/// `str::to_uppercase`: Unicode uppercasing, a function of the characters
/// alone; what it maps each character to is not stated here.
#[verifier::external_body]
pub(crate) fn to_uppercase(s: &str) -> (r: String)
    ensures
        r@ == unicode_upper(s@),
{
    s.to_uppercase()
}

/// `a` followed by `b`.
pub fn concat(a: &str, b: &str) -> (r: String)
    ensures
        r@ == a@ + b@,
{
    let mut r = String::from_str(a);
    r.append(b);
    r
}

/// `char::is_ascii_digit`.
pub open spec fn is_digit(c: char) -> bool {
    '0' <= c && c <= '9'
}

/// Every character is an ASCII digit.
pub open spec fn all_digits(s: Seq<char>) -> bool {
    forall|i: int| 0 <= i < s.len() ==> is_digit(#[trigger] s[i])
}

pub open spec fn digit_value(c: char) -> nat {
    ((c as u32) - ('0' as u32)) as nat
}

pub open spec fn digit_char(d: nat) -> char {
    ((d + ('0' as u32)) as u32) as char
}

/// The number written by a string of decimal digits.
pub open spec fn decimal_value(s: Seq<char>) -> nat
    decreases s.len(),
{
    if s.len() == 0 {
        0
    } else {
        decimal_value(s.drop_last()) * 10 + digit_value(s.last())
    }
}

/// What `str::parse` gives back for an unsigned integer type whose largest
/// value is `max`: an optional `+`, then at least one ASCII digit and
/// nothing else, with a value that fits.
pub open spec fn parse_unsigned(s: Seq<char>, max: nat) -> Option<nat> {
    let d = if s.len() > 0 && s[0] == '+' {
        s.subrange(1, s.len() as int)
    } else {
        s
    };
    if d.len() > 0 && all_digits(d) && decimal_value(d) <= max {
        Some(decimal_value(d))
    } else {
        None
    }
}

/// The decimal writing of `n`, as `to_string` gives it for an unsigned integer.
pub open spec fn decimal_digits(n: nat) -> Seq<char>
    decreases n,
{
    if n < 10 {
        seq![digit_char(n)]
    } else {
        decimal_digits(n / 10).push(digit_char(n % 10))
    }
}

pub proof fn lemma_decimal_value_prefix(s: Seq<char>, k: int)
    requires
        0 <= k <= s.len(),
        all_digits(s),
    ensures
        decimal_value(s.subrange(0, k)) <= decimal_value(s),
    decreases s.len() - k,
{
    if k < s.len() {
        lemma_decimal_value_prefix(s, k + 1);
        let p = s.subrange(0, k + 1);
        assert(p.drop_last() =~= s.subrange(0, k));
        assert(p.last() == s[k]);
    } else {
        assert(s.subrange(0, k) =~= s);
    }
}

/// Reads a decimal number no larger than `max` from `v[from..]`.
fn parse_digits(v: &Vec<char>, from: usize, max: u64) -> (r: Option<u64>)
    requires
        from <= v@.len(),
    ensures
        match r {
            Some(n) => {
                let d = v@.subrange(from as int, v@.len() as int);
                d.len() > 0 && all_digits(d) && decimal_value(d) <= max && n == decimal_value(d)
            },
            None => {
                let d = v@.subrange(from as int, v@.len() as int);
                !(d.len() > 0 && all_digits(d) && decimal_value(d) <= max)
            },
        },
{
    let ghost d = v@.subrange(from as int, v@.len() as int);
    if from == v.len() {
        return None;
    }
    let mut i: usize = from;
    let mut acc: u64 = 0;
    while i < v.len()
        invariant
            from <= i <= v@.len(),
            d == v@.subrange(from as int, v@.len() as int),
            all_digits(v@.subrange(from as int, i as int)),
            acc as nat == decimal_value(v@.subrange(from as int, i as int)),
            acc <= max,
        decreases v@.len() - i,
    {
        let c = v[i];
        if !('0' <= c && c <= '9') {
            assert(!all_digits(d)) by {
                assert(d[i - from] == c);
            }
            return None;
        }
        let digit = (c as u32 - '0' as u32) as u64;
        let ghost pre = v@.subrange(from as int, i + 1);
        assert(pre.drop_last() =~= v@.subrange(from as int, i as int));
        assert(all_digits(pre)) by {
            assert forall|j: int| 0 <= j < pre.len() implies is_digit(#[trigger] pre[j]) by {
                if j < pre.len() - 1 {
                    assert(pre[j] == v@.subrange(from as int, i as int)[j]);
                }
            }
        }
        if digit > max || acc > (max - digit) / 10 {
            proof {
                assert(decimal_value(pre) > max) by (nonlinear_arith)
                    requires
                        decimal_value(pre) == acc * 10 + digit,
                        digit > max || acc > (max - digit) / 10,
                        acc >= 0,
                ;
                if all_digits(d) {
                    assert(pre =~= d.subrange(0, i + 1 - from));
                    lemma_decimal_value_prefix(d, i + 1 - from);
                }
            }
            return None;
        }
        acc = acc * 10 + digit;
        i = i + 1;
    }
    assert(v@.subrange(from as int, i as int) =~= d);
    Some(acc)
}

/// `str::parse::<u64>` (and, with a smaller `max`, of the narrower unsigned types).
pub fn parse_unsigned_exec(s: &str, max: u64) -> (r: Option<u64>)
    ensures
        match r {
            Some(n) => parse_unsigned(s@, max as nat) == Some(n as nat),
            None => parse_unsigned(s@, max as nat) is None,
        },
{
    let v = chars_of(s);
    if v.len() > 0 && v[0] == '+' {
        parse_digits(&v, 1, max)
    } else {
        assert(v@.subrange(0, v@.len() as int) =~= v@);
        parse_digits(&v, 0, max)
    }
}

/// `str::parse::<u16>`.
pub fn parse_u16(s: &str) -> (r: Option<u16>)
    ensures
        match r {
            Some(n) => parse_unsigned(s@, u16::MAX as nat) == Some(n as nat),
            None => parse_unsigned(s@, u16::MAX as nat) is None,
        },
{
    match parse_unsigned_exec(s, 65535) {
        Some(n) => Some(n as u16),
        None => None,
    }
}

/// `str::parse::<usize>` on a 64-bit target; on a narrower one it reads up
/// to `usize::MAX`.
pub fn parse_usize(s: &str) -> (r: Option<usize>)
    ensures
        match r {
            Some(n) => parse_unsigned(s@, usize::MAX as nat) == Some(n as nat),
            None => parse_unsigned(s@, usize::MAX as nat) is None,
        },
{
    match parse_unsigned_exec(s, usize::MAX as u64) {
        Some(n) => Some(n as usize),
        None => None,
    }
}

fn decimal_chars(n: u64) -> (r: Vec<char>)
    ensures
        r@ == decimal_digits(n as nat),
    decreases n,
{
    let c = ((n % 10) as u8 + 48u8) as char;
    if n < 10 {
        let mut v: Vec<char> = Vec::new();
        v.push(c);
        v
    } else {
        let mut v = decimal_chars(n / 10);
        v.push(c);
        v
    }
}

/// `u64::to_string`.
pub fn u64_to_string(n: u64) -> (r: String)
    ensures
        r@ == decimal_digits(n as nat),
{
    let v = decimal_chars(n);
    string_of(v.as_slice())
}

/// `u16::to_string`.
pub fn u16_to_string(n: u16) -> (r: String)
    ensures
        r@ == decimal_digits(n as nat),
{
    u64_to_string(n as u64)
}

/// Reading back what `to_string` writes gives the number again.
pub proof fn lemma_parse_decimal_digits(n: nat, max: nat)
    requires
        n <= max,
    ensures
        parse_unsigned(decimal_digits(n), max) == Some(n),
    decreases n,
{
    lemma_decimal_digits(n);
}

pub proof fn lemma_decimal_digits(n: nat)
    ensures
        decimal_digits(n).len() > 0,
        all_digits(decimal_digits(n)),
        decimal_value(decimal_digits(n)) == n,
        decimal_digits(n)[0] != '+',
    decreases n,
{
    if n < 10 {
        let s = decimal_digits(n);
        assert(digit_char(n) as u32 == n + 48);
        assert('0' as u32 == 48);
        assert(digit_value(s.last()) == n);
        assert(s.drop_last() =~= Seq::<char>::empty());
        assert(decimal_value(s.drop_last()) == 0);
        assert(s.drop_last() =~= Seq::<char>::empty());
    } else {
        lemma_decimal_digits(n / 10);
        let s = decimal_digits(n);
        assert(digit_char(n % 10) as u32 == n % 10 + 48);
        assert('0' as u32 == 48);
        assert(s.last() == digit_char(n % 10));
        assert(digit_value(s.last()) == n % 10);
        assert(decimal_value(s) == decimal_value(s.drop_last()) * 10 + digit_value(s.last()));
        assert(s.drop_last() =~= decimal_digits(n / 10));
        assert forall|i: int| 0 <= i < s.len() implies is_digit(#[trigger] s[i]) by {
            if i < s.len() - 1 {
                assert(s[i] == decimal_digits(n / 10)[i]);
            }
        }
    }
}


/// `char::is_whitespace`: the Unicode `White_Space` characters.
pub open spec fn is_ws(c: char) -> bool {
    ('\t' <= c && c <= '\r') || c == ' ' || c == '\u{85}' || c == '\u{a0}' || c == '\u{1680}'
        || ('\u{2000}' <= c && c <= '\u{200a}') || c == '\u{2028}' || c == '\u{2029}' || c
        == '\u{202f}' || c == '\u{205f}' || c == '\u{3000}'
}

pub fn is_ws_exec(c: char) -> (r: bool)
    ensures
        r == is_ws(c),
{
    ('\t' <= c && c <= '\r') || c == ' ' || c == '\u{85}' || c == '\u{a0}' || c == '\u{1680}'
        || ('\u{2000}' <= c && c <= '\u{200a}') || c == '\u{2028}' || c == '\u{2029}' || c
        == '\u{202f}' || c == '\u{205f}' || c == '\u{3000}'
}

/// `str::trim_end`.
pub open spec fn trim_end_ws(s: Seq<char>) -> Seq<char>
    decreases s.len(),
{
    if s.len() > 0 && is_ws(s.last()) {
        trim_end_ws(s.drop_last())
    } else {
        s
    }
}

/// `trim_end` keeps a prefix and drops only whitespace.
pub proof fn lemma_trim_end_ws(s: Seq<char>)
    ensures
        trim_end_ws(s).len() <= s.len(),
        trim_end_ws(s) == s.subrange(0, trim_end_ws(s).len() as int),
        forall|j: int| trim_end_ws(s).len() <= j < s.len() ==> is_ws(#[trigger] s[j]),
    decreases s.len(),
{
    if s.len() > 0 && is_ws(s.last()) {
        lemma_trim_end_ws(s.drop_last());
        let t = trim_end_ws(s.drop_last());
        assert(t =~= s.subrange(0, t.len() as int));
        assert forall|j: int| t.len() <= j < s.len() implies is_ws(#[trigger] s[j]) by {
            if j < s.len() - 1 {
                assert(s.drop_last()[j] == s[j]);
            }
        }
    } else {
        assert(s =~= s.subrange(0, s.len() as int));
    }
}

/// `str::trim_end_matches(['\n', '\r'])`.
pub open spec fn trim_end_newlines(s: Seq<char>) -> Seq<char>
    decreases s.len(),
{
    if s.len() > 0 && (s.last() == '\n' || s.last() == '\r') {
        trim_end_newlines(s.drop_last())
    } else {
        s
    }
}

/// `str::trim_start_matches(c)` for a single character.
pub open spec fn trim_start_char(s: Seq<char>, c: char) -> Seq<char>
    decreases s.len(),
{
    if s.len() > 0 && s[0] == c {
        trim_start_char(s.subrange(1, s.len() as int), c)
    } else {
        s
    }
}

/// `str::trim_end`.
pub fn trim_end(s: &str) -> (r: String)
    ensures
        r@ == trim_end_ws(s@),
{
    let v = chars_of(s);
    let mut n = v.len();
    assert(v@.subrange(0, v@.len() as int) =~= v@);
    while n > 0 && is_ws_exec(v[n - 1])
        invariant
            n <= v@.len(),
            trim_end_ws(v@) == trim_end_ws(v@.subrange(0, n as int)),
        decreases n,
    {
        assert(v@.subrange(0, n as int).drop_last() =~= v@.subrange(0, n - 1));
        n = n - 1;
    }
    assert(v@.subrange(0, v@.len() as int) =~= v@);
    let out = sub_chars(&v, 0, n);
    string_of(out.as_slice())
}

/// `str::trim_end_matches(['\n', '\r'])`.
pub fn trim_newlines_end(s: &str) -> (r: String)
    ensures
        r@ == trim_end_newlines(s@),
{
    let v = chars_of(s);
    let mut n = v.len();
    assert(v@.subrange(0, v@.len() as int) =~= v@);
    while n > 0 && (v[n - 1] == '\n' || v[n - 1] == '\r')
        invariant
            n <= v@.len(),
            trim_end_newlines(v@) == trim_end_newlines(v@.subrange(0, n as int)),
        decreases n,
    {
        assert(v@.subrange(0, n as int).drop_last() =~= v@.subrange(0, n - 1));
        n = n - 1;
    }
    let out = sub_chars(&v, 0, n);
    string_of(out.as_slice())
}

/// `str::trim_start_matches(c)` for a single character.
pub fn trim_start_matches_char(s: &str, c: char) -> (r: String)
    ensures
        r@ == trim_start_char(s@, c),
{
    let v = chars_of(s);
    let mut i: usize = 0;
    assert(v@.subrange(0, v@.len() as int) =~= v@);
    while i < v.len() && v[i] == c
        invariant
            i <= v@.len(),
            trim_start_char(v@, c) == trim_start_char(v@.subrange(i as int, v@.len() as int), c),
        decreases v@.len() - i,
    {
        assert(v@.subrange(i as int, v@.len() as int).subrange(1, v@.len() - i) =~= v@.subrange(
            i + 1,
            v@.len() as int,
        ));
        i = i + 1;
    }
    let out = sub_chars(&v, i, v.len());
    string_of(out.as_slice())
}

/// The characters of `s` before the first `c` (all of `s` when there is
/// none): the first piece of `str::split(c)`.
pub open spec fn take_until(s: Seq<char>, c: char) -> Seq<char>
    decreases s.len(),
{
    if s.len() == 0 {
        s
    } else if s[0] == c {
        Seq::<char>::empty()
    } else {
        seq![s[0]] + take_until(s.subrange(1, s.len() as int), c)
    }
}

/// The first piece of `str::split(c)`.
pub fn first_piece(s: &str, c: char) -> (r: String)
    ensures
        r@ == take_until(s@, c),
{
    let v = chars_of(s);
    let mut out: Vec<char> = Vec::new();
    let mut i: usize = 0;
    assert(v@.subrange(0, v@.len() as int) =~= v@);
    while i < v.len() && v[i] != c
        invariant
            i <= v@.len(),
            out@ + take_until(v@.subrange(i as int, v@.len() as int), c) == take_until(v@, c),
        decreases v@.len() - i,
    {
        let ghost rest = v@.subrange(i as int, v@.len() as int);
        assert(rest.subrange(1, rest.len() as int) =~= v@.subrange(i + 1, v@.len() as int));
        assert(out@.push(v@[i as int]) + take_until(v@.subrange(i + 1, v@.len() as int), c)
            =~= out@ + take_until(rest, c));
        out.push(v[i]);
        i = i + 1;
    }
    assert(out@ + take_until(v@.subrange(i as int, v@.len() as int), c) =~= out@);
    string_of(out.as_slice())
}

/// Position of the last `c` in `s`.
pub open spec fn last_index_of(s: Seq<char>, c: char) -> Option<int>
    decreases s.len(),
{
    if s.len() == 0 {
        None
    } else if s.last() == c {
        Some(s.len() - 1)
    } else {
        last_index_of(s.drop_last(), c)
    }
}

pub proof fn lemma_last_index_of(s: Seq<char>, c: char)
    ensures
        last_index_of(s, c) matches Some(k) ==> 0 <= k < s.len() && s[k] == c && forall|j: int|
            k < j < s.len() ==> s[j] != c,
        last_index_of(s, c) is None ==> forall|j: int| 0 <= j < s.len() ==> s[j] != c,
    decreases s.len(),
{
    if s.len() > 0 && s.last() != c {
        lemma_last_index_of(s.drop_last(), c);
        assert forall|j: int| 0 <= j < s.len() - 1 implies s[j] == s.drop_last()[j] by {}
    }
}

/// Lines as `str::lines` yields them: split at `\n`, a `\r` just before
/// the `\n` dropped, no final empty line after a trailing `\n`. `cur` is
/// the part of the current line read so far.
pub open spec fn lines_from(s: Seq<char>, cur: Seq<char>) -> Seq<Seq<char>>
    decreases s.len(),
{
    if s.len() == 0 {
        if cur.len() == 0 {
            Seq::<Seq<char>>::empty()
        } else {
            seq![cur]
        }
    } else if s[0] == '\n' {
        let line = if cur.len() > 0 && cur.last() == '\r' {
            cur.drop_last()
        } else {
            cur
        };
        seq![line] + lines_from(s.subrange(1, s.len() as int), Seq::<char>::empty())
    } else {
        lines_from(s.subrange(1, s.len() as int), cur.push(s[0]))
    }
}

/// What `str::lines` yields.
pub open spec fn lines_seq(s: Seq<char>) -> Seq<Seq<char>> {
    lines_from(s, Seq::<char>::empty())
}

/// Words as `str::split_whitespace` yields them. `cur` is the part of the
/// current word read so far.
pub open spec fn words_from(s: Seq<char>, cur: Seq<char>) -> Seq<Seq<char>>
    decreases s.len(),
{
    if s.len() == 0 {
        if cur.len() == 0 {
            Seq::<Seq<char>>::empty()
        } else {
            seq![cur]
        }
    } else if is_ws(s[0]) {
        let done = if cur.len() == 0 {
            Seq::<Seq<char>>::empty()
        } else {
            seq![cur]
        };
        done + words_from(s.subrange(1, s.len() as int), Seq::<char>::empty())
    } else {
        words_from(s.subrange(1, s.len() as int), cur.push(s[0]))
    }
}

/// What `str::split_whitespace` yields.
pub open spec fn words_seq(s: Seq<char>) -> Seq<Seq<char>> {
    words_from(s, Seq::<char>::empty())
}

/// The views of a vector of strings.
/// The view of an optional string.
pub open spec fn opt_view(s: Option<&str>) -> Option<Seq<char>> {
    match s {
        Some(x) => Some(x@),
        None => None,
    }
}

pub open spec fn views(v: Seq<String>) -> Seq<Seq<char>> {
    v.map_values(|x: String| x@)
}

/// `str::lines`, collected.
pub fn lines(s: &str) -> (r: Vec<String>)
    ensures
        views(r@) == lines_seq(s@),
{
    let v = chars_of(s);
    let mut out: Vec<String> = Vec::new();
    let mut cur: Vec<char> = Vec::new();
    let mut i: usize = 0;
    assert(v@.subrange(0, v@.len() as int) =~= v@);
    assert(views(out@) + lines_from(v@, cur@) =~= lines_seq(v@));
    while i < v.len()
        invariant
            i <= v@.len(),
            views(out@) + lines_from(v@.subrange(i as int, v@.len() as int), cur@) == lines_seq(
                v@,
            ),
        decreases v@.len() - i,
    {
        let ghost rest = v@.subrange(i as int, v@.len() as int);
        assert(rest.subrange(1, rest.len() as int) =~= v@.subrange(i + 1, v@.len() as int));
        if v[i] == '\n' {
            let n = cur.len();
            let line = if n > 0 && cur[n - 1] == '\r' {
                sub_chars(&cur, 0, n - 1)
            } else {
                sub_chars(&cur, 0, n)
            };
            assert(cur@.subrange(0, n as int) =~= cur@);
            assert(cur@.subrange(0, n - 1) =~= cur@.drop_last());
            let ls = string_of(line.as_slice());
            let ghost before = views(out@);
            out.push(ls);
            assert(views(out@) =~= before.push(line@));
            assert(views(out@) + lines_from(v@.subrange(i + 1, v@.len() as int), Seq::<char>::empty())
                =~= before + lines_from(rest, cur@));
            cur = Vec::new();
        } else {
            cur.push(v[i]);
        }
        i = i + 1;
    }
    if cur.len() > 0 {
        let ghost before = views(out@);
        out.push(string_of(cur.as_slice()));
        assert(views(out@) =~= before + seq![cur@]);
    } else {
        assert(views(out@) + Seq::<Seq<char>>::empty() =~= views(out@));
    }
    out
}

/// `str::split_whitespace`, collected.
pub fn words(s: &str) -> (r: Vec<String>)
    ensures
        views(r@) == words_seq(s@),
{
    let v = chars_of(s);
    let mut out: Vec<String> = Vec::new();
    let mut cur: Vec<char> = Vec::new();
    let mut i: usize = 0;
    assert(v@.subrange(0, v@.len() as int) =~= v@);
    assert(views(out@) + words_from(v@, cur@) =~= words_seq(v@));
    while i < v.len()
        invariant
            i <= v@.len(),
            views(out@) + words_from(v@.subrange(i as int, v@.len() as int), cur@) == words_seq(
                v@,
            ),
        decreases v@.len() - i,
    {
        let ghost rest = v@.subrange(i as int, v@.len() as int);
        assert(rest.subrange(1, rest.len() as int) =~= v@.subrange(i + 1, v@.len() as int));
        if is_ws_exec(v[i]) {
            let ghost before = views(out@);
            if cur.len() > 0 {
                out.push(string_of(cur.as_slice()));
                assert(views(out@) =~= before + seq![cur@]);
            } else {
                assert(views(out@) =~= before + Seq::<Seq<char>>::empty());
            }
            assert(views(out@) + words_from(v@.subrange(i + 1, v@.len() as int), Seq::<char>::empty())
                =~= before + words_from(rest, cur@));
            cur = Vec::new();
        } else {
            cur.push(v[i]);
        }
        i = i + 1;
    }
    if cur.len() > 0 {
        let ghost before = views(out@);
        out.push(string_of(cur.as_slice()));
        assert(views(out@) =~= before + seq![cur@]);
    } else {
        assert(views(out@) + Seq::<Seq<char>>::empty() =~= views(out@));
    }
    out
}


pub proof fn lemma_take_until(s: Seq<char>, c: char)
    ensures
        take_until(s, c).len() <= s.len(),
        take_until(s, c) == s.subrange(0, take_until(s, c).len() as int),
        forall|j: int| 0 <= j < take_until(s, c).len() ==> s[j] != c,
        take_until(s, c).len() < s.len() ==> s[take_until(s, c).len() as int] == c,
    decreases s.len(),
{
    if s.len() > 0 && s[0] != c {
        let rest = s.subrange(1, s.len() as int);
        lemma_take_until(rest, c);
        let t = take_until(s, c);
        assert(t == seq![s[0]] + take_until(rest, c));
        assert forall|j: int| 0 <= j < t.len() implies s[j] != c by {
            if j > 0 {
                assert(t[j] == take_until(rest, c)[j - 1]);
                assert(rest[j - 1] == s[j]);
            }
        }
        assert(t =~= s.subrange(0, t.len() as int));
        if t.len() < s.len() {
            assert(rest[take_until(rest, c).len() as int] == s[t.len() as int]);
        }
    } else if s.len() > 0 {
        assert(take_until(s, c) =~= s.subrange(0, 0));
    } else {
        assert(take_until(s, c) =~= s.subrange(0, 0));
    }
}

/// `str::split_once(c)`: the parts before and after the first `c`.
pub open spec fn split_once_seq(s: Seq<char>, c: char) -> Option<(Seq<char>, Seq<char>)> {
    let head = take_until(s, c);
    if head.len() >= s.len() {
        None
    } else {
        Some((head, s.subrange(head.len() as int + 1, s.len() as int)))
    }
}

/// Splitting `a`, `c`, `b` at its first `c` gives back `a` and `b` when
/// `a` has no `c`.
pub proof fn lemma_split_once_concat(a: Seq<char>, c: char, b: Seq<char>)
    requires
        forall|j: int| 0 <= j < a.len() ==> a[j] != c,
    ensures
        take_until(a + seq![c] + b, c) == a,
        split_once_seq(a + seq![c] + b, c) == Some((a, b)),
{
    let s = a + seq![c] + b;
    lemma_take_until(s, c);
    let t = take_until(s, c);
    if t.len() < a.len() {
        assert(s[t.len() as int] == a[t.len() as int]);
    }
    if t.len() > a.len() {
        assert(s[a.len() as int] == c);
    }
    assert(t =~= a);
    assert(s.subrange(a.len() as int + 1, s.len() as int) =~= b);
}

/// `str::split_once(c)`.
pub fn split_once(s: &str, c: char) -> (r: Option<(String, String)>)
    ensures
        match split_once_seq(s@, c) {
            Some((a, b)) => r matches Some((x, y)) && x@ == a && y@ == b,
            None => r is None,
        },
{
    let v = chars_of(s);
    proof {
        lemma_take_until(v@, c);
    }
    let mut i: usize = 0;
    while i < v.len() && v[i] != c
        invariant
            i <= v@.len(),
            forall|j: int| 0 <= j < i ==> v@[j] != c,
        decreases v@.len() - i,
    {
        i = i + 1;
    }
    let ghost head = take_until(v@, c);
    assert(head.len() == i) by {
        if head.len() < i {
            assert(v@[head.len() as int] == c);
        } else if head.len() > i {
            assert(v@[i as int] != c);
        }
    }
    if i == v.len() {
        return None;
    }
    let a = sub_chars(&v, 0, i);
    let b = sub_chars(&v, i + 1, v.len());
    Some((string_of(a.as_slice()), string_of(b.as_slice())))
}

} // verus!
