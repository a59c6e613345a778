//! Joining words into one POSIX shell command line.

use vstd::prelude::*;

use crate::text::{chars_of, concat, has_prefix, replace, replace_seq, string_of, views};

verus! {

/// Characters that need no quoting in a shell word.
pub open spec fn is_plain_char(c: char) -> bool {
    ('a' <= c && c <= 'z') || ('A' <= c && c <= 'Z') || ('0' <= c && c <= '9') || c == '_' || c
        == '-' || c == '.' || c == '/' || c == ':' || c == ',' || c == '@' || c == '%' || c == '+'
        || c == '='
}

/// A word the shell reads back unchanged without quotes.
pub open spec fn is_plain_word(w: Seq<char>) -> bool {
    w.len() > 0 && forall|i: int| 0 <= i < w.len() ==> is_plain_char(#[trigger] w[i])
}

/// The word as the shell must be given it: as is when plain, else in
/// single quotes with each `'` written `'\''`.
pub open spec fn quoted(w: Seq<char>) -> Seq<char> {
    if is_plain_word(w) {
        w
    } else {
        "'"@ + replace_seq(w, "'"@, "'\\''"@) + "'"@
    }
}

/// The quoted words, separated by single spaces.
pub open spec fn joined(ws: Seq<Seq<char>>) -> Seq<char>
    decreases ws.len(),
{
    if ws.len() == 0 {
        Seq::<char>::empty()
    } else if ws.len() == 1 {
        quoted(ws[0])
    } else {
        joined(ws.drop_last()) + " "@ + quoted(ws.last())
    }
}

/// How a POSIX shell splits a command line made of bare characters,
/// blanks, single-quoted spans and backslash escapes into words: `cur` is
/// the word read so far, `in_word` whether one has started (an empty `''`
/// starts one), `in_quotes` whether a single-quoted span is open.
pub open spec fn split_from(s: Seq<char>, cur: Seq<char>, in_word: bool, in_quotes: bool) -> Seq<
    Seq<char>,
>
    decreases s.len(),
{
    if s.len() == 0 {
        if in_word {
            seq![cur]
        } else {
            Seq::empty()
        }
    } else {
        let c = s[0];
        let rest = s.subrange(1, s.len() as int);
        if in_quotes {
            if c == '\'' {
                split_from(rest, cur, true, false)
            } else {
                split_from(rest, cur.push(c), true, true)
            }
        } else if c == ' ' {
            if in_word {
                seq![cur] + split_from(rest, Seq::empty(), false, false)
            } else {
                split_from(rest, Seq::empty(), false, false)
            }
        } else if c == '\'' {
            split_from(rest, cur, true, true)
        } else if c == '\\' && rest.len() > 0 {
            split_from(rest.subrange(1, rest.len() as int), cur.push(rest[0]), true, false)
        } else {
            split_from(rest, cur.push(c), true, false)
        }
    }
}

/// The words a POSIX shell reads from a command line.
pub open spec fn shell_words(s: Seq<char>) -> Seq<Seq<char>> {
    split_from(s, Seq::empty(), false, false)
}

/// Bare plain characters extend the current word.
proof fn lemma_split_plain(p: Seq<char>, t: Seq<char>, cur: Seq<char>, in_word: bool)
    requires
        forall|i: int| 0 <= i < p.len() ==> is_plain_char(#[trigger] p[i]),
    ensures
        split_from(p + t, cur, in_word, false) == split_from(t, cur + p, in_word || p.len() > 0, false),
    decreases p.len(),
{
    if p.len() == 0 {
        assert(p + t =~= t);
        assert(cur + p =~= cur);
    } else {
        let s = p + t;
        let rest = p.subrange(1, p.len() as int);
        assert(is_plain_char(p[0]));
        assert(s[0] == p[0]);
        assert(s.subrange(1, s.len() as int) =~= rest + t);
        assert forall|i: int| 0 <= i < rest.len() implies is_plain_char(#[trigger] rest[i]) by {
            assert(rest[i] == p[i + 1]);
        }
        lemma_split_plain(rest, t, cur.push(p[0]), true);
        assert(cur.push(p[0]) + rest =~= cur + p);
    }
}

/// Inside an open single-quoted span, the escaped text of `w` and the
/// closing quote extend the current word by `w`.
proof fn lemma_split_escaped(w: Seq<char>, t: Seq<char>, cur: Seq<char>)
    ensures
        split_from(replace_seq(w, "'"@, "'\\''"@) + "'"@ + t, cur, true, true) == split_from(
            t,
            cur + w,
            true,
            false,
        ),
    decreases w.len(),
{
    reveal_strlit("'");
    reveal_strlit("'\\''");
    let e = replace_seq(w, "'"@, "'\\''"@);
    let s = e + "'"@ + t;
    if w.len() == 0 {
        assert(e == w);
        assert(s[0] == '\'');
        assert(s.subrange(1, s.len() as int) =~= t);
        assert(cur + w =~= cur);
    } else {
        let rest = w.subrange(1, w.len() as int);
        let x = replace_seq(rest, "'"@, "'\\''"@) + "'"@ + t;
        lemma_split_escaped(rest, t, cur.push(w[0]));
        assert(cur.push(w[0]) + rest =~= cur + w);
        if w[0] == '\'' {
            assert(w.subrange(0, 1) =~= "'"@);
            assert(e == "'\\''"@ + replace_seq(rest, "'"@, "'\\''"@));
            assert(s =~= seq!['\'', '\\', '\'', '\''] + x);
            let s1 = s.subrange(1, s.len() as int);
            assert(s1 =~= seq!['\\', '\'', '\''] + x);
            let r1 = s1.subrange(1, s1.len() as int);
            assert(r1 =~= seq!['\'', '\''] + x);
            let s2 = r1.subrange(1, r1.len() as int);
            assert(s2 =~= seq!['\''] + x);
            assert(s2.subrange(1, s2.len() as int) =~= x);
            assert(split_from(s, cur, true, true) == split_from(s1, cur, true, false));
            assert(split_from(s1, cur, true, false) == split_from(s2, cur.push('\''), true, false));
            assert(split_from(s2, cur.push('\''), true, false) == split_from(x, cur.push('\''), true, true));
        } else {
            assert(w.subrange(0, 1)[0] == w[0]);
            assert(!has_prefix(w, "'"@));
            assert(e == seq![w[0]] + replace_seq(rest, "'"@, "'\\''"@));
            assert(s =~= seq![w[0]] + x);
            assert(s.subrange(1, s.len() as int) =~= x);
        }
    }
}

/// A quoted word extends the current word by the word itself and leaves no
/// quote open.
proof fn lemma_split_quoted(w: Seq<char>, t: Seq<char>, cur: Seq<char>, in_word: bool)
    ensures
        split_from(quoted(w) + t, cur, in_word, false) == split_from(t, cur + w, true, false),
{
    reveal_strlit("'");
    if is_plain_word(w) {
        lemma_split_plain(w, t, cur, in_word);
    } else {
        let e = replace_seq(w, "'"@, "'\\''"@);
        let s = "'"@ + e + "'"@ + t;
        assert(quoted(w) + t =~= s);
        assert(s[0] == '\'');
        assert(s.subrange(1, s.len() as int) =~= e + "'"@ + t);
        lemma_split_escaped(w, t, cur);
    }
}

/// `joined`, read from the first word.
proof fn lemma_joined_front(w: Seq<char>, ws: Seq<Seq<char>>)
    ensures
        joined(seq![w] + ws) == quoted(w) + (if ws.len() == 0 {
            Seq::<char>::empty()
        } else {
            " "@ + joined(ws)
        }),
    decreases ws.len(),
{
    reveal_strlit(" ");
    let all = seq![w] + ws;
    if ws.len() == 0 {
        assert(all =~= seq![w]);
        assert(quoted(w) + Seq::<char>::empty() =~= quoted(w));
    } else if ws.len() == 1 {
        assert(all.drop_last() =~= seq![w]);
        assert(all.last() == ws[0]);
        assert(joined(seq![w]) == quoted(w));
        assert(joined(ws) == quoted(ws[0]));
        assert(joined(all) == joined(all.drop_last()) + " "@ + quoted(all.last()));
        assert(joined(all) =~= quoted(w) + (" "@ + joined(ws)));
    } else {
        lemma_joined_front(w, ws.drop_last());
        assert(all.drop_last() =~= seq![w] + ws.drop_last());
        assert(all.last() == ws.last());
        assert(joined(all) == joined(all.drop_last()) + " "@ + quoted(all.last()));
        assert(joined(ws) == joined(ws.drop_last()) + " "@ + quoted(ws.last()));
        assert(joined(all) =~= quoted(w) + (" "@ + joined(ws)));
    }
}

/// A command line joined from words reads back, in the shell, as those
/// words.
pub proof fn lemma_joined_reads_back(ws: Seq<Seq<char>>)
    ensures
        shell_words(joined(ws)) == ws,
    decreases ws.len(),
{
    reveal_strlit(" ");
    if ws.len() == 0 {
        assert(shell_words(joined(ws)) =~= ws);
    } else {
        let w = ws[0];
        let rest = ws.subrange(1, ws.len() as int);
        assert(ws =~= seq![w] + rest);
        lemma_joined_front(w, rest);
        if rest.len() == 0 {
            lemma_split_quoted(w, Seq::empty(), Seq::empty(), false);
            assert(quoted(w) + Seq::<char>::empty() =~= quoted(w));
            assert(Seq::<char>::empty() + w =~= w);
            assert(shell_words(joined(ws)) =~= ws);
        } else {
            let t = " "@ + joined(rest);
            lemma_split_quoted(w, t, Seq::empty(), false);
            assert(Seq::<char>::empty() + w =~= w);
            assert(t[0] == ' ');
            assert(t.subrange(1, t.len() as int) =~= joined(rest));
            lemma_joined_reads_back(rest);
            assert(shell_words(joined(ws)) =~= seq![w] + rest);
        }
    }
}

fn is_plain_char_exec(c: char) -> (r: bool)
    ensures
        r == is_plain_char(c),
{
    ('a' <= c && c <= 'z') || ('A' <= c && c <= 'Z') || ('0' <= c && c <= '9') || c == '_' || c
        == '-' || c == '.' || c == '/' || c == ':' || c == ',' || c == '@' || c == '%' || c == '+'
        || c == '='
}

/// Quotes one word for the shell.
pub fn quote(word: &str) -> (r: String)
    ensures
        r@ == quoted(word@),
{
    proof {
        reveal_strlit("'");
    }
    let v = chars_of(word);
    let mut plain = v.len() > 0;
    let mut i: usize = 0;
    while i < v.len()
        invariant
            i <= v@.len(),
            plain == (v@.len() > 0 && forall|j: int| 0 <= j < i ==> is_plain_char(v@[j])),
        decreases v@.len() - i,
    {
        if !is_plain_char_exec(v[i]) {
            plain = false;
        }
        i = i + 1;
    }
    if plain {
        string_of(v.as_slice())
    } else {
        let escaped = replace(word, "'", "'\\''");
        let a = concat("'", escaped.as_str());
        concat(a.as_str(), "'")
    }
}

/// Joins words into a shell command line, quoting where needed.
pub fn shell_join(words: &Vec<String>) -> (r: String)
    ensures
        r@ == joined(views(words@)),
{
    let ghost ws = views(words@);
    let mut out = String::new();
    let mut i: usize = 0;
    while i < words.len()
        invariant
            i <= words@.len(),
            ws == views(words@),
            out@ == joined(ws.subrange(0, i as int)),
        decreases words@.len() - i,
    {
        let q = quote(words[i].as_str());
        let ghost pre = ws.subrange(0, i + 1);
        assert(pre.drop_last() =~= ws.subrange(0, i as int));
        if i == 0 {
            out = q;
        } else {
            let spaced = concat(out.as_str(), " ");
            out = concat(spaced.as_str(), q.as_str());
        }
        i = i + 1;
    }
    assert(ws.subrange(0, i as int) =~= ws);
    out
}

} // verus!
