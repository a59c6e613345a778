//! `scwx completions`: the zsh script rewired to complete names from the
//! cache.

use vstd::prelude::*;

use crate::cli::{CONNECT_QUERY_HELP, DB_NAME_HELP, PF_QUERY_HELP};
use crate::text::{
    chars_of, concat, contains_seq, find_chars, find_seq, free_of, gaps_shorter, holds_char,
    lemma_find_seq, lemma_insert_creates_none, lemma_occurs_in_suffix, lemma_replace_absent,
    lemma_replace_creates_none, lemma_replace_first, occurs_at, replace, replace_seq, string_of,
    sub_chars,
};

verus! {

/// zsh functions that read names from the cache, inserted before the
/// script's dispatch.
pub const DYNAMIC_HELPERS: &'static str = "\n_scwx_server_names() {\n    compadd -- ${(f)\"$(scwx ls --names --cached 2>/dev/null)\"}\n}\n_scwx_db_names() {\n    compadd -- ${(f)\"$(scwx ls --db-names --cached 2>/dev/null)\"}\n}\n_scwx_pf_names() {\n    compadd -- ${(f)\"$(scwx ls --pf-names --cached 2>/dev/null)\"}\n}\n_scwx_tunnel_names() {\n    compadd -- ${(f)\"$(scwx pf ls 2>/dev/null | cut -d' ' -f1)\"}\n}\n_scwx_pf_targets_or_commands() {\n    _scwx_pf_names\n    _scwx__subcmd__pf_commands\n}\n\n";

/// The line of the generated script that starts its dispatch.
pub const DISPATCH_MARKER: &'static str = "if [ \"$funcstack[1]\" = \"_scwx\" ]";

/// pf's query positional and subcommand, as clap writes them.
pub open spec fn pf_positionals() -> Seq<char> {
    "'::query -- "@ + PF_QUERY_HELP@ + ":_scwx_pf_names' \\\n\":: :_scwx__subcmd__pf_commands\" \\\n"@
}

pub const PF_MERGED: &'static str = "\":: :_scwx_pf_targets_or_commands\" \\\n";

/// pf's state machine dispatching on `line[2]`, as clap writes it.
pub open spec fn pf_dispatch_second() -> Seq<char> {
    "        words=($line[2] \"${words[@]}\")\n        (( CURRENT += 1 ))\n        curcontext=\"${curcontext%:*:*}:scwx-pf-command-$line[2]:\"\n        case $line[2] in"@
}

/// The same dispatch on `line[1]`.
pub open spec fn pf_dispatch_first() -> Seq<char> {
    "        words=($line[1] \"${words[@]}\")\n        (( CURRENT += 1 ))\n        curcontext=\"${curcontext%:*:*}:scwx-pf-command-$line[1]:\"\n        case $line[1] in"@
}

/// The static completer of tunnel names.
pub open spec fn static_name_completer() -> Seq<char> {
    "'::name:_default'"@
}

/// The completer that reads tunnel names.
pub open spec fn tunnel_name_completer() -> Seq<char> {
    "'::name:_scwx_tunnel_names'"@
}

/// A static name completer followed directly by the rest of another: the
/// one text where rewriting the first leaves a new one behind.
pub open spec fn doubled_static_completer() -> Seq<char> {
    "'::name:_default'::name:_default'"@
}

/// The rewritten script: the name and query positionals complete from the
/// cache, pf's query and subcommand share position one and its state
/// machine reads `line[1]`, and the helpers stand before the dispatch (when
/// the script has one).
pub open spec fn dynamic_names_spec(script: Seq<char>) -> Seq<char> {
    let s1 = replace_seq(
        script,
        CONNECT_QUERY_HELP@ + ":_default"@,
        CONNECT_QUERY_HELP@ + ":_scwx_server_names"@,
    );
    let s2 = replace_seq(s1, DB_NAME_HELP@ + ":_default"@, DB_NAME_HELP@ + ":_scwx_db_names"@);
    let s3 = replace_seq(s2, PF_QUERY_HELP@ + ":_default"@, PF_QUERY_HELP@ + ":_scwx_pf_names"@);
    let s4 = replace_seq(s3, static_name_completer(), tunnel_name_completer());
    let s5 = replace_seq(s4, pf_positionals(), PF_MERGED@);
    let s6 = replace_seq(s5, pf_dispatch_second(), pf_dispatch_first());
    match find_seq(s6, DISPATCH_MARKER@) {
        Some(p) => s6.subrange(0, p) + DYNAMIC_HELPERS@ + s6.subrange(p, s6.len() as int),
        None => s6,
    }
}

/// Swaps the static `_default` completers of name/query positionals for
/// helpers that read the scwx cache, so values tab-complete.
pub fn with_dynamic_names(script: &str) -> (r: String)
    ensures
        r@ == dynamic_names_spec(script@),
{
    proof {
        reveal_strlit(":_default");
        reveal_strlit("'::name:_default'");
        reveal_strlit("'::query -- ");
        reveal_strlit("        words=($line[2] \"${words[@]}\")\n        (( CURRENT += 1 ))\n        curcontext=\"${curcontext%:*:*}:scwx-pf-command-$line[2]:\"\n        case $line[2] in");
    }
    let connect_from = concat(CONNECT_QUERY_HELP, ":_default");
    let connect_to = concat(CONNECT_QUERY_HELP, ":_scwx_server_names");
    let s1 = replace(script, connect_from.as_str(), connect_to.as_str());
    let db_from = concat(DB_NAME_HELP, ":_default");
    let db_to = concat(DB_NAME_HELP, ":_scwx_db_names");
    let s2 = replace(s1.as_str(), db_from.as_str(), db_to.as_str());
    let pf_from = concat(PF_QUERY_HELP, ":_default");
    let pf_to = concat(PF_QUERY_HELP, ":_scwx_pf_names");
    let s3 = replace(s2.as_str(), pf_from.as_str(), pf_to.as_str());
    let s4 = replace(s3.as_str(), "'::name:_default'", "'::name:_scwx_tunnel_names'");
    let a = concat("'::query -- ", PF_QUERY_HELP);
    let positionals = concat(
        a.as_str(),
        ":_scwx_pf_names' \\\n\":: :_scwx__subcmd__pf_commands\" \\\n",
    );
    let s5 = replace(s4.as_str(), positionals.as_str(), PF_MERGED);
    let s6 = replace(s5.as_str(), "        words=($line[2] \"${words[@]}\")\n        (( CURRENT += 1 ))\n        curcontext=\"${curcontext%:*:*}:scwx-pf-command-$line[2]:\"\n        case $line[2] in", "        words=($line[1] \"${words[@]}\")\n        (( CURRENT += 1 ))\n        curcontext=\"${curcontext%:*:*}:scwx-pf-command-$line[1]:\"\n        case $line[1] in");
    let v = chars_of(s6.as_str());
    let marker = chars_of(DISPATCH_MARKER);
    match find_chars(&v, &marker) {
        Some(p) => {
            proof {
                crate::text::lemma_find_seq(v@, marker@);
            }
            let head = sub_chars(&v, 0, p);
            let tail = sub_chars(&v, p, v.len());
            let with_helpers = concat(string_of(head.as_slice()).as_str(), DYNAMIC_HELPERS);
            concat(with_helpers.as_str(), string_of(tail.as_slice()).as_str())
        },
        None => s6,
    }
}


/// The facts about the completer texts that the laws use.
proof fn lemma_completer_texts()
    ensures
        static_name_completer().len() == 17,
        tunnel_name_completer().len() == 27,
        static_name_completer()[0] == '\'' && static_name_completer()[16] == '\'',
        forall|i: int| 0 < i < 16 ==> #[trigger] static_name_completer()[i] != '\'',
        forall|i: int| 0 < i < 26 ==> #[trigger] tunnel_name_completer()[i] != '\'',
        tunnel_name_completer()[0] == '\'' && tunnel_name_completer()[26] == '\'',
        tunnel_name_completer()[9] != static_name_completer()[9],
        free_of(static_name_completer(), '\n'),
        static_name_completer()[1] == ':',
        doubled_static_completer() == static_name_completer() + static_name_completer().subrange(
            1,
            17,
        ),
{
    reveal_strlit("'::name:_default'");
    reveal_strlit("'::name:_scwx_tunnel_names'");
    reveal_strlit("'::name:_default'::name:_default'");
    assert(doubled_static_completer() =~= static_name_completer() + static_name_completer().subrange(
        1,
        17,
    ));
}

/// What follows a rewritten text starts like the rest of a static
/// completer only if the text itself did.
proof fn lemma_rewritten_start(w: Seq<char>)
    requires
        ({
            let r = replace_seq(w, static_name_completer(), tunnel_name_completer());
            r.len() >= 16 && r.subrange(0, 16) == static_name_completer().subrange(1, 17)
        }),
    ensures
        w.len() >= 16,
        w.subrange(0, 16) == static_name_completer().subrange(1, 17),
{
    lemma_completer_texts();
    let f = static_name_completer();
    let t = tunnel_name_completer();
    let r = replace_seq(w, f, t);
    lemma_find_seq(w, f);
    match find_seq(w, f) {
        None => {
            lemma_replace_absent(w, f, t);
        },
        Some(j) => {
            lemma_replace_first(w, f, t, j);
            let tail = replace_seq(w.subrange(j + 17, w.len() as int), f, t);
            assert(r =~= w.subrange(0, j) + t + tail);
            if j >= 16 {
                assert(r.subrange(0, 16) =~= w.subrange(0, 16));
            } else {
                assert(r[j] == t[0]);
                assert(r.subrange(0, 16)[j] == f[1 + j]);
                assert(j == 15);
                assert(w.subrange(j, j + 17) == f);
                assert(w[15] == w.subrange(j, j + 17)[0]);
                assert(w.subrange(0, 16) =~= r.subrange(0, 15).push(w[15]));
                assert(w.subrange(0, 16) =~= f.subrange(1, 17));
            }
        },
    }
}

/// Rewriting static tunnel-name completers leaves none behind, unless one
/// is directly followed by the rest of another.
proof fn lemma_completer_rewrite(s: Seq<char>)
    requires
        !contains_seq(s, doubled_static_completer()),
    ensures
        !contains_seq(
            replace_seq(s, static_name_completer(), tunnel_name_completer()),
            static_name_completer(),
        ),
    decreases s.len(),
{
    lemma_completer_texts();
    let f = static_name_completer();
    let t = tunnel_name_completer();
    let g = doubled_static_completer();
    let r = replace_seq(s, f, t);
    if s.len() < 17 {
        assert forall|k: int| !occurs_at(r, f, k) by {}
    } else if crate::text::has_prefix(s, f) {
        let rest = s.subrange(17, s.len() as int);
        assert forall|k: int| !occurs_at(rest, g, k) by {
            if occurs_at(rest, g, k) {
                lemma_occurs_in_suffix(s, g, 17, k);
            }
        }
        lemma_completer_rewrite(rest);
        let rr = replace_seq(rest, f, t);
        assert(r == t + rr);
        assert forall|k: int| !occurs_at(r, f, k) by {
            if occurs_at(r, f, k) {
                let win = r.subrange(k, k + 17);
                if k >= 27 {
                    assert(win =~= rr.subrange(k - 27, k - 10));
                    assert(occurs_at(rr, f, k - 27));
                } else if k == 0 {
                    assert(win[9] == t[9]);
                } else if k < 26 {
                    assert(win[0] == t[k]);
                } else {
                    assert(rr.subrange(0, 16) =~= win.subrange(1, 17));
                    lemma_rewritten_start(rest);
                    assert(s.subrange(0, 17) =~= f);
                    assert(s.subrange(0, 33) =~= g);
                    assert(occurs_at(s, g, 0));
                }
            }
        }
    } else {
        let s1 = s.subrange(1, s.len() as int);
        assert forall|k: int| !occurs_at(s1, g, k) by {
            if occurs_at(s1, g, k) {
                lemma_occurs_in_suffix(s, g, 1, k);
            }
        }
        lemma_completer_rewrite(s1);
        let rr = replace_seq(s1, f, t);
        assert(r == seq![s[0]] + rr);
        assert forall|k: int| !occurs_at(r, f, k) by {
            if occurs_at(r, f, k) {
                let win = r.subrange(k, k + 17);
                if k >= 1 {
                    assert(win =~= rr.subrange(k - 1, k + 16));
                    assert(occurs_at(rr, f, k - 1));
                } else {
                    assert(rr.subrange(0, 16) =~= win.subrange(1, 17));
                    lemma_rewritten_start(s1);
                    assert(s.subrange(0, 17) =~= seq![s[0]] + s1.subrange(0, 16));
                    assert(s[0] == win[0]);
                    assert(s.subrange(0, 17) =~= f);
                }
            }
        }
    }
}

/// Every stretch of 16 characters of the completer texts holds a quote.
proof fn lemma_completer_gaps(n: int)
    requires
        n >= 16,
    ensures
        gaps_shorter(static_name_completer(), '\'', n),
        gaps_shorter(doubled_static_completer(), '\'', n),
{
    lemma_completer_texts();
    let f = static_name_completer();
    let g = doubled_static_completer();
    assert(g[0] == '\'' && g[16] == '\'' && g[32] == '\'');
    assert forall|i: int| 0 <= i && i + n <= f.len() implies #[trigger] holds_char(f, '\'', i, n) by {
        if i == 0 {
            assert(f[0] == '\'');
        } else {
            assert(f[16] == '\'');
        }
    }
    assert forall|i: int| 0 <= i && i + n <= g.len() implies #[trigger] holds_char(g, '\'', i, n) by {
        if i == 0 {
            assert(g[0] == '\'');
        } else if i <= 16 {
            assert(g[16] == '\'');
        } else {
            assert(g[32] == '\'');
        }
    }
}

/// The facts about the other rewritten texts and the helpers that the laws
/// use.
proof fn lemma_rewrite_texts()
    ensures
        free_of(CONNECT_QUERY_HELP@ + ":_scwx_server_names"@, '\''),
        free_of(DB_NAME_HELP@ + ":_scwx_db_names"@, '\''),
        free_of(PF_QUERY_HELP@ + ":_scwx_pf_names"@, '\''),
        free_of(PF_MERGED@, '\''),
        free_of(pf_dispatch_first(), '\''),
        (CONNECT_QUERY_HELP@ + ":_scwx_server_names"@).len() >= 16,
        (DB_NAME_HELP@ + ":_scwx_db_names"@).len() >= 16,
        (PF_QUERY_HELP@ + ":_scwx_pf_names"@).len() >= 16,
        PF_MERGED@.len() >= 16,
        pf_dispatch_first().len() >= 16,
        (CONNECT_QUERY_HELP@ + ":_default"@).len() > 0,
        (DB_NAME_HELP@ + ":_default"@).len() > 0,
        (PF_QUERY_HELP@ + ":_default"@).len() > 0,
        pf_positionals().len() > 0,
        pf_dispatch_second().len() > 0,
        DYNAMIC_HELPERS@.len() > 0,
        DYNAMIC_HELPERS@[0] == '\n',
        DYNAMIC_HELPERS@.last() == '\n',
        forall|i: int|
            0 <= i < DYNAMIC_HELPERS@.len() - 1 ==> !(#[trigger] DYNAMIC_HELPERS@[i] == '\''
                && DYNAMIC_HELPERS@[i + 1] == ':'),
{
    reveal_strlit("Fuzzy query; connects directly when it matches a single server");
    reveal_strlit("Database name; picks interactively when omitted or ambiguous");
    reveal_strlit("Fuzzy query; forwards directly when it matches a single resource");
    reveal_strlit(":_scwx_server_names");
    reveal_strlit(":_scwx_db_names");
    reveal_strlit(":_scwx_pf_names");
    reveal_strlit(":_default");
    reveal_strlit("'::query -- ");
    reveal_strlit("\":: :_scwx_pf_targets_or_commands\" \\\n");
    reveal_strlit("\n_scwx_server_names() {\n    compadd -- ${(f)\"$(scwx ls --names --cached 2>/dev/null)\"}\n}\n_scwx_db_names() {\n    compadd -- ${(f)\"$(scwx ls --db-names --cached 2>/dev/null)\"}\n}\n_scwx_pf_names() {\n    compadd -- ${(f)\"$(scwx ls --pf-names --cached 2>/dev/null)\"}\n}\n_scwx_tunnel_names() {\n    compadd -- ${(f)\"$(scwx pf ls 2>/dev/null | cut -d' ' -f1)\"}\n}\n_scwx_pf_targets_or_commands() {\n    _scwx_pf_names\n    _scwx__subcmd__pf_commands\n}\n\n");
    reveal_strlit("        words=($line[1] \"${words[@]}\")\n        (( CURRENT += 1 ))\n        curcontext=\"${curcontext%:*:*}:scwx-pf-command-$line[1]:\"\n        case $line[1] in");
    reveal_strlit("        words=($line[2] \"${words[@]}\")\n        (( CURRENT += 1 ))\n        curcontext=\"${curcontext%:*:*}:scwx-pf-command-$line[2]:\"\n        case $line[2] in");
    let a = CONNECT_QUERY_HELP@ + ":_scwx_server_names"@;
    let b = DB_NAME_HELP@ + ":_scwx_db_names"@;
    let c = PF_QUERY_HELP@ + ":_scwx_pf_names"@;
    assert forall|i: int| 0 <= i < a.len() implies a[i] != '\'' by {}
    assert forall|i: int| 0 <= i < b.len() implies b[i] != '\'' by {}
    assert forall|i: int| 0 <= i < c.len() implies c[i] != '\'' by {}
    let m = PF_MERGED@;
    assert forall|i: int| 0 <= i < m.len() implies m[i] != '\'' by {}
    let d = pf_dispatch_first();
    assert forall|i: int| 0 <= i < d.len() implies d[i] != '\'' by {}
    let h = DYNAMIC_HELPERS@;
    assert forall|i: int| 0 <= i < h.len() - 1 implies !(#[trigger] h[i] == '\'' && h[i + 1] == ':') by {}
}

/// After the rewrite no tunnel name is left to the static completer: every
/// `'::name:_default'` became `'::name:_scwx_tunnel_names'`. This holds of
/// every script except those holding a completer directly followed by the
/// rest of another (`'::name:_default'::name:_default'`), where rewriting
/// the first completes a new one.
pub proof fn lemma_no_static_tunnel_completer(script: Seq<char>)
    requires
        !contains_seq(script, doubled_static_completer()),
    ensures
        !contains_seq(dynamic_names_spec(script), static_name_completer()),
{
    lemma_rewrite_texts();
    lemma_completer_texts();
    let f = static_name_completer();
    let g = doubled_static_completer();
    let to1 = CONNECT_QUERY_HELP@ + ":_scwx_server_names"@;
    let to2 = DB_NAME_HELP@ + ":_scwx_db_names"@;
    let to3 = PF_QUERY_HELP@ + ":_scwx_pf_names"@;
    lemma_completer_gaps(to1.len() as int);
    lemma_completer_gaps(to2.len() as int);
    lemma_completer_gaps(to3.len() as int);
    lemma_completer_gaps(PF_MERGED@.len() as int);
    lemma_completer_gaps(pf_dispatch_first().len() as int);
    assert(g[0] == '\'' && g.last() == '\'');
    let s1 = replace_seq(script, CONNECT_QUERY_HELP@ + ":_default"@, to1);
    lemma_replace_creates_none(script, CONNECT_QUERY_HELP@ + ":_default"@, to1, g, '\'');
    let s2 = replace_seq(s1, DB_NAME_HELP@ + ":_default"@, to2);
    lemma_replace_creates_none(s1, DB_NAME_HELP@ + ":_default"@, to2, g, '\'');
    let s3 = replace_seq(s2, PF_QUERY_HELP@ + ":_default"@, to3);
    lemma_replace_creates_none(s2, PF_QUERY_HELP@ + ":_default"@, to3, g, '\'');
    let s4 = replace_seq(s3, f, tunnel_name_completer());
    lemma_completer_rewrite(s3);
    let s5 = replace_seq(s4, pf_positionals(), PF_MERGED@);
    lemma_replace_creates_none(s4, pf_positionals(), PF_MERGED@, f, '\'');
    let s6 = replace_seq(s5, pf_dispatch_second(), pf_dispatch_first());
    lemma_replace_creates_none(s5, pf_dispatch_second(), pf_dispatch_first(), f, '\'');
    match find_seq(s6, DISPATCH_MARKER@) {
        Some(p) => {
            lemma_find_seq(s6, DISPATCH_MARKER@);
            let a = s6.subrange(0, p);
            let b = s6.subrange(p, s6.len() as int);
            assert(a + b =~= s6);
            lemma_insert_creates_none(a, b, DYNAMIC_HELPERS@, f, '\n');
        },
        None => {},
    }
}

/// A script in which none of the rewritten texts occurs, and without the
/// dispatch, comes back unchanged.
pub proof fn lemma_untouched_script(script: Seq<char>)
    requires
        !contains_seq(script, CONNECT_QUERY_HELP@ + ":_default"@),
        !contains_seq(script, DB_NAME_HELP@ + ":_default"@),
        !contains_seq(script, PF_QUERY_HELP@ + ":_default"@),
        !contains_seq(script, static_name_completer()),
        !contains_seq(script, pf_positionals()),
        !contains_seq(script, pf_dispatch_second()),
        !contains_seq(script, DISPATCH_MARKER@),
    ensures
        dynamic_names_spec(script) == script,
{
    lemma_rewrite_texts();
    lemma_completer_texts();
    lemma_replace_absent(
        script,
        CONNECT_QUERY_HELP@ + ":_default"@,
        CONNECT_QUERY_HELP@ + ":_scwx_server_names"@,
    );
    lemma_replace_absent(script, DB_NAME_HELP@ + ":_default"@, DB_NAME_HELP@ + ":_scwx_db_names"@);
    lemma_replace_absent(script, PF_QUERY_HELP@ + ":_default"@, PF_QUERY_HELP@ + ":_scwx_pf_names"@);
    lemma_replace_absent(script, static_name_completer(), tunnel_name_completer());
    lemma_replace_absent(script, pf_positionals(), PF_MERGED@);
    lemma_replace_absent(script, pf_dispatch_second(), pf_dispatch_first());
    lemma_find_seq(script, DISPATCH_MARKER@);
}

} // verus!
