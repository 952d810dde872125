//! FTS5 query hygiene for the full-text symbol search.
//!
//! User queries are reduced to alphanumeric / `_` tokens separated by
//! single spaces so FTS5 operator characters (`-`, `"`, `*`, `:`, `^`,
//! `(`, `)`, `+`) can never change the meaning of a search, and a
//! multi-token query can be broadened to an OR of quoted tokens.
use vstd::prelude::*;
use crate::text::{
    alphanumeric, char_is_alphanumeric, is_ws, is_whitespace, str_chars, string_from_chars,
    trim_end, ws_suffix_start, push_all,
};
use crate::cross_workspace::{find_from, split_sep};

verus! {

/// Characters a sanitized query keeps verbatim.
pub open spec fn kept(c: char) -> bool {
    alphanumeric(c) || c == '_'
}

/// Left-to-right pass: keep kept characters, turn every run of other
/// characters into one space (none at the start). Second component:
/// whether the last emitted character was a separator.
pub open spec fn sanitize_pass(s: Seq<char>) -> (Seq<char>, bool)
    decreases s.len(),
{
    if s.len() == 0 {
        (Seq::empty(), true)
    } else {
        let (o, last_space) = sanitize_pass(s.drop_last());
        let c = s.last();
        if kept(c) {
            (o.push(c), false)
        } else if !last_space {
            (o.push(' '), true)
        } else {
            (o, last_space)
        }
    }
}

/// The sanitized query: the pass's output with trailing white space
/// trimmed.
pub open spec fn sanitized(s: Seq<char>) -> Seq<char> {
    trim_end(sanitize_pass(s).0)
}

/// Every character is a kept one or a single separating space; no space
/// leads and no two spaces are adjacent.
pub open spec fn canonical_tokens(o: Seq<char>) -> bool {
    &&& forall|j: int| 0 <= j < o.len() ==> (kept(#[trigger] o[j]) || o[j] == ' ')
    &&& (o.len() > 0 ==> o[0] != ' ')
    &&& forall|j: int| 0 < j < o.len() && #[trigger] o[j] == ' ' ==> o[j - 1] != ' '
}

proof fn lemma_pass_canonical(s: Seq<char>)
    ensures
        canonical_tokens(sanitize_pass(s).0),
        sanitize_pass(s).1 <==> (sanitize_pass(s).0.len() == 0 || sanitize_pass(s).0.last() == ' '),
    decreases s.len(),
{
    if s.len() > 0 {
        lemma_pass_canonical(s.drop_last());
        let (o, l) = sanitize_pass(s.drop_last());
        let c = s.last();
        if kept(c) {
            let n = o.push(c);
            assert forall|j: int| 0 < j < n.len() && #[trigger] n[j] == ' ' implies n[j - 1] != ' ' by {
                if j == n.len() - 1 {
                    assert(n[j] == c);
                } else {
                    assert(n[j] == o[j]);
                }
            }
            assert forall|j: int| 0 <= j < n.len() implies (kept(#[trigger] n[j]) || n[j] == ' ') by {
                if j < o.len() {
                    assert(n[j] == o[j]);
                }
            }
        } else if !l {
            let n = o.push(' ');
            assert forall|j: int| 0 < j < n.len() && #[trigger] n[j] == ' ' implies n[j - 1] != ' ' by {
                if j < o.len() {
                    assert(n[j] == o[j]);
                    assert(n[j - 1] == o[j - 1]);
                }
            }
            assert forall|j: int| 0 <= j < n.len() implies (kept(#[trigger] n[j]) || n[j] == ' ') by {
                if j < o.len() {
                    assert(n[j] == o[j]);
                }
            }
        }
    }
}

proof fn lemma_trim_end_prefix(o: Seq<char>)
    ensures
        trim_end(o).len() <= o.len(),
        trim_end(o) == o.take(trim_end(o).len() as int),
        trim_end(o).len() > 0 ==> !is_ws(trim_end(o).last()),
    decreases o.len(),
{
    if o.len() > 0 && is_ws(o.last()) {
        lemma_trim_end_prefix(o.drop_last());
        assert(o.drop_last().take(trim_end(o).len() as int) =~= o.take(trim_end(o).len() as int));
    } else {
        assert(o.take(o.len() as int) =~= o);
    }
}

proof fn lemma_pass_fixes_canonical(c: Seq<char>)
    requires
        canonical_tokens(c),
    ensures
        sanitize_pass(c) == (c, c.len() == 0 || c.last() == ' '),
    decreases c.len(),
{
    if c.len() > 0 {
        let p = c.drop_last();
        assert(canonical_tokens(p)) by {
            assert forall|j: int| 0 <= j < p.len() implies (kept(#[trigger] p[j]) || p[j] == ' ') by {
                assert(p[j] == c[j]);
            }
            assert forall|j: int| 0 < j < p.len() && #[trigger] p[j] == ' ' implies p[j - 1] != ' ' by {
                assert(p[j] == c[j]);
                assert(p[j - 1] == c[j - 1]);
            }
            if p.len() > 0 {
                assert(p[0] == c[0]);
            }
        }
        lemma_pass_fixes_canonical(p);
        let x = c.last();
        assert(kept(c[c.len() - 1]) || c[c.len() - 1] == ' ');
        if !kept(x) {
            assert(x == ' ');
            assert(c.len() > 1);
            assert(c[c.len() - 2] != ' ');
            assert(p.last() == c[c.len() - 2]);
        }
        assert(p.push(x) =~= c);
    }
}

/// Sanitizing is idempotent: a sanitized query passes through the
/// sanitizer unchanged (its tokens and single separating spaces are
/// exactly what the sanitizer emits).
pub proof fn lemma_sanitize_idempotent(s: Seq<char>)
    ensures
        sanitized(sanitized(s)) == sanitized(s),
{
    let o = sanitize_pass(s).0;
    let c = sanitized(s);
    lemma_pass_canonical(s);
    lemma_trim_end_prefix(o);
    assert(canonical_tokens(c)) by {
        assert forall|j: int| 0 <= j < c.len() implies (kept(#[trigger] c[j]) || c[j] == ' ') by {
            assert(c[j] == o[j]);
        }
        assert forall|j: int| 0 < j < c.len() && #[trigger] c[j] == ' ' implies c[j - 1] != ' ' by {
            assert(c[j] == o[j]);
            assert(c[j - 1] == o[j - 1]);
        }
        if c.len() > 0 {
            assert(c[0] == o[0]);
        }
    }
    lemma_pass_fixes_canonical(c);
    assert(trim_end(c) == c);
}

/// Left-to-right scan for the maximal runs of kept characters: the runs
/// closed so far and the run being read.
pub open spec fn runs_pass(s: Seq<char>) -> (Seq<Seq<char>>, Seq<char>)
    decreases s.len(),
{
    if s.len() == 0 {
        (Seq::empty(), Seq::empty())
    } else {
        let (d, cur) = runs_pass(s.drop_last());
        let c = s.last();
        if kept(c) {
            (d, cur.push(c))
        } else if cur.len() > 0 {
            (d.push(cur), Seq::empty())
        } else {
            (d, cur)
        }
    }
}

/// The maximal runs of kept characters (alphanumerics and `_`) of `s`,
/// in order.
pub open spec fn kept_runs(s: Seq<char>) -> Seq<Seq<char>> {
    let (d, cur) = runs_pass(s);
    if cur.len() > 0 {
        d.push(cur)
    } else {
        d
    }
}

/// No character of `s` is both kept and white space.
pub open spec fn kept_not_ws(s: Seq<char>) -> bool {
    forall|i: int| 0 <= i < s.len() ==> !(kept(#[trigger] s[i]) && is_ws(s[i]))
}

/// A run that can stand as a token: non-empty, kept characters only, none
/// of them white space.
pub open spec fn token_run(r: Seq<char>) -> bool {
    &&& r.len() > 0
    &&& forall|j: int| 0 <= j < r.len() ==> kept(#[trigger] r[j]) && !is_ws(r[j])
}

proof fn lemma_pass_is_joined_runs(s: Seq<char>)
    requires
        kept_not_ws(s),
    ensures
        forall|i: int| 0 <= i < runs_pass(s).0.len() ==> token_run(#[trigger] runs_pass(s).0[i]),
        forall|j: int| 0 <= j < runs_pass(s).1.len() ==> kept(#[trigger] runs_pass(s).1[j]) && !is_ws(runs_pass(s).1[j]),
        runs_pass(s).1.len() > 0 ==> sanitize_pass(s).0 == crate::text::join_with(runs_pass(s).0.push(runs_pass(s).1), ' ')
            && !sanitize_pass(s).1,
        runs_pass(s).1.len() == 0 ==> sanitize_pass(s).1 && sanitize_pass(s).0 == (if runs_pass(s).0.len() == 0 {
            Seq::<char>::empty()
        } else {
            crate::text::join_with(runs_pass(s).0, ' ').push(' ')
        }),
    decreases s.len(),
{
    if s.len() > 0 {
        let p = s.drop_last();
        assert(kept_not_ws(p)) by {
            assert forall|i: int| 0 <= i < p.len() implies !(kept(#[trigger] p[i]) && is_ws(p[i])) by {
                assert(p[i] == s[i]);
            }
        }
        lemma_pass_is_joined_runs(p);
        let (d, cur) = runs_pass(p);
        let (o, l) = sanitize_pass(p);
        let c = s.last();
        assert(!(kept(s[s.len() - 1]) && is_ws(s[s.len() - 1])));
        if kept(c) {
            let cur2 = cur.push(c);
            assert forall|j: int| 0 <= j < cur2.len() implies kept(#[trigger] cur2[j]) && !is_ws(cur2[j]) by {
                if j < cur.len() {
                    assert(cur2[j] == cur[j]);
                }
            }
            if cur.len() > 0 {
                if d.len() == 0 {
                    assert(d.push(cur).len() == 1);
                    assert(d.push(cur2).len() == 1);
                    assert(crate::text::join_with(d.push(cur2), ' ') == cur2);
                    assert(crate::text::join_with(d.push(cur), ' ') == cur);
                } else {
                    assert(d.push(cur2).drop_last() =~= d);
                    assert(d.push(cur).drop_last() =~= d);
                    assert(crate::text::join_with(d.push(cur), ' ') == crate::text::join_with(d, ' ').push(' ') + cur);
                    assert(crate::text::join_with(d.push(cur2), ' ') == crate::text::join_with(d, ' ').push(' ') + cur2);
                    assert((crate::text::join_with(d, ' ').push(' ') + cur).push(c) =~= crate::text::join_with(d, ' ').push(' ') + cur2);
                }
            } else {
                if d.len() == 0 {
                    assert(d.push(cur2).len() == 1);
                    assert(crate::text::join_with(d.push(cur2), ' ') == cur2);
                    assert(o.push(c) =~= cur2);
                } else {
                    assert(d.push(cur2).drop_last() =~= d);
                    assert(crate::text::join_with(d.push(cur2), ' ') == crate::text::join_with(d, ' ').push(' ') + cur2);
                    assert(o.push(c) =~= crate::text::join_with(d, ' ').push(' ') + cur2);
                }
            }
        } else if cur.len() > 0 {
            let d2 = d.push(cur);
            assert forall|i: int| 0 <= i < d2.len() implies token_run(#[trigger] d2[i]) by {
                if i < d.len() {
                    assert(d2[i] == d[i]);
                }
            }
        }
    }
}

/// The sanitized query is the maximal runs of kept characters of the raw
/// query joined by single spaces, so its space-separated tokens are
/// exactly those runs, in order (given that no kept character is white
/// space, which Verus cannot see of Unicode alphanumerics by itself).
pub proof fn lemma_sanitized_tokens_are_kept_runs(s: Seq<char>)
    requires
        kept_not_ws(s),
    ensures
        sanitized(s) == crate::text::join_with(kept_runs(s), ' '),
        forall|i: int| 0 <= i < kept_runs(s).len() ==> token_run(#[trigger] kept_runs(s)[i]),
        kept_runs(s).len() > 0 ==> crate::text::split_char(sanitized(s), ' ') == kept_runs(s),
{
    lemma_pass_is_joined_runs(s);
    let (d, cur) = runs_pass(s);
    let o = sanitize_pass(s).0;
    let k = kept_runs(s);
    if cur.len() > 0 {
        assert(k == d.push(cur));
        assert forall|i: int| 0 <= i < k.len() implies token_run(#[trigger] k[i]) by {
            if i < d.len() {
                assert(k[i] == d[i]);
            }
        }
        lemma_join_last(k);
        assert(!is_ws(o.last()));
    } else if d.len() > 0 {
        lemma_join_last(d);
        let j = crate::text::join_with(d, ' ');
        assert(o.drop_last() =~= j);
        assert(is_ws(o.last()));
        assert(trim_end(o) == trim_end(j));
        assert(!is_ws(j.last()));
    } else {
        assert(o.len() == 0);
    }
    if k.len() > 0 {
        assert forall|i: int| 0 <= i < k.len() implies !(#[trigger] k[i]).contains(' ') by {
            if k[i].contains(' ') {
                let j = choose|j: int| 0 <= j < k[i].len() && k[i][j] == ' ';
                assert(kept(k[i][j]));
            }
        }
        crate::text::lemma_split_join(k, ' ');
    }
}

proof fn lemma_join_last(ls: Seq<Seq<char>>)
    requires
        ls.len() > 0,
        forall|i: int| 0 <= i < ls.len() ==> token_run(#[trigger] ls[i]),
    ensures
        crate::text::join_with(ls, ' ').len() > 0,
        !is_ws(crate::text::join_with(ls, ' ').last()),
{
    let r = ls.last();
    assert(token_run(ls[ls.len() - 1]));
    assert(kept(r[r.len() - 1]) && !is_ws(r[r.len() - 1]));
    if ls.len() > 1 {
        let j = crate::text::join_with(ls.drop_last(), ' ').push(' ') + r;
        assert(j.last() == r.last());
    }
}

/// On ASCII text no kept character is white space, so the runs law above
/// holds of every ASCII query.
pub proof fn lemma_ascii_kept_not_ws(s: Seq<char>)
    requires
        forall|i: int| 0 <= i < s.len() ==> crate::text::is_ascii_char(#[trigger] s[i]),
    ensures
        kept_not_ws(s),
{
    assert forall|i: int| 0 <= i < s.len() implies !(kept(#[trigger] s[i]) && is_ws(s[i])) by {
        assert(crate::text::is_ascii_char(s[i]));
    }
}

/// Replaces every run of FTS5 syntax characters (anything but
/// alphanumerics and `_`) with one space and trims the end, so the
/// remaining tokens are implicitly AND-ed by FTS5.
pub fn sanitize_fts5_query(raw: &str) -> (out: String)
    ensures
        out@ == sanitized(raw@),
        canonical_tokens(out@),
        out@.len() > 0 ==> out@.last() != ' ',
{
    let s = str_chars(raw);
    let mut o: Vec<char> = Vec::new();
    let mut last_was_space = true;
    let mut i: usize = 0;
    while i < s.len()
        invariant
            i <= s.len(),
            (o@, last_was_space) == sanitize_pass(s@.take(i as int)),
        decreases s.len() - i,
    {
        let c = s[i];
        assert(s@.take(i + 1).drop_last() =~= s@.take(i as int));
        let keep = char_is_alphanumeric(c) || c == '_';
        if keep {
            o.push(c);
            last_was_space = false;
        } else if !last_was_space {
            o.push(' ');
            last_was_space = true;
        }
        i += 1;
    }
    assert(s@.take(s.len() as int) =~= s@);
    let k = ws_suffix_start(&o);
    o.truncate(k);
    proof {
        lemma_pass_canonical(s@);
        lemma_trim_end_prefix(sanitize_pass(s@).0);
        let full = sanitize_pass(s@).0;
        let t = trim_end(full);
        assert forall|j: int| 0 < j < t.len() && #[trigger] t[j] == ' ' implies t[j - 1] != ' ' by {
            assert(t[j] == full[j]);
            assert(t[j - 1] == full[j - 1]);
        }
        assert forall|j: int| 0 <= j < t.len() implies (kept(#[trigger] t[j]) || t[j] == ' ') by {
            assert(t[j] == full[j]);
        }
        if t.len() > 0 {
            assert(t[0] == full[0]);
        }
    }
    string_from_chars(o)
}

// ---------------------------------------------------------------------
// OR broadening
// ---------------------------------------------------------------------

/// Left-to-right tokenizer state for `split_whitespace`: finished tokens
/// and the token being read.
pub open spec fn ws_token_pass(s: Seq<char>) -> (Seq<Seq<char>>, Seq<char>)
    decreases s.len(),
{
    if s.len() == 0 {
        (Seq::empty(), Seq::empty())
    } else {
        let (done, cur) = ws_token_pass(s.drop_last());
        let c = s.last();
        if is_ws(c) {
            if cur.len() > 0 {
                (done.push(cur), Seq::empty())
            } else {
                (done, Seq::empty())
            }
        } else {
            (done, cur.push(c))
        }
    }
}

/// `str::split_whitespace`: the non-empty runs of non-white-space.
pub open spec fn ws_tokens(s: Seq<char>) -> Seq<Seq<char>> {
    let (done, cur) = ws_token_pass(s);
    if cur.len() > 0 {
        done.push(cur)
    } else {
        done
    }
}

pub open spec fn quoted(t: Seq<char>) -> Seq<char> {
    seq!['"'] + t + seq!['"']
}

/// `"t1" OR "t2" OR …` for a non-empty token list.
pub open spec fn or_join(tokens: Seq<Seq<char>>) -> Seq<char>
    decreases tokens.len(),
{
    if tokens.len() <= 1 {
        if tokens.len() == 1 { quoted(tokens[0]) } else { Seq::empty() }
    } else {
        or_join(tokens.drop_last()) + " OR "@ + quoted(tokens.last())
    }
}

pub open spec fn or_fallback(s: Seq<char>) -> Option<Seq<char>> {
    if ws_tokens(s).len() < 2 {
        None
    } else {
        Some(or_join(ws_tokens(s)))
    }
}

fn quote_into(out: &mut Vec<char>, t: &[char])
    ensures
        final(out)@ == old(out)@ + quoted(t@),
{
    out.push('"');
    push_all(out, t);
    out.push('"');
    assert(final(out)@ =~= old(out)@ + quoted(t@));
}

/// Broadens a multi-token sanitized query to FTS5 OR semantics:
/// each white-space separated token is phrase-quoted and the quoted
/// tokens are joined by ` OR `. `None` for fewer than two tokens.
/// The characters of `s` that are not white space, in order.
pub open spec fn non_ws_chars(s: Seq<char>) -> Seq<char>
    decreases s.len(),
{
    if s.len() == 0 {
        Seq::empty()
    } else if is_ws(s.last()) {
        non_ws_chars(s.drop_last())
    } else {
        non_ws_chars(s.drop_last()).push(s.last())
    }
}

/// The tokens laid end to end.
pub open spec fn concat_all(ts: Seq<Seq<char>>) -> Seq<char>
    decreases ts.len(),
{
    if ts.len() == 0 {
        Seq::empty()
    } else {
        concat_all(ts.drop_last()) + ts.last()
    }
}

proof fn lemma_ws_token_pass_content(s: Seq<char>)
    ensures
        concat_all(ws_token_pass(s).0) + ws_token_pass(s).1 == non_ws_chars(s),
    decreases s.len(),
{
    if s.len() > 0 {
        lemma_ws_token_pass_content(s.drop_last());
        let (done, cur) = ws_token_pass(s.drop_last());
        let c = s.last();
        if is_ws(c) {
            if cur.len() > 0 {
                assert(done.push(cur).drop_last() =~= done);
                assert(concat_all(done.push(cur)) + Seq::<char>::empty() =~= concat_all(done) + cur);
            } else {
                assert(concat_all(done) + Seq::<char>::empty() =~= concat_all(done) + cur);
            }
        } else {
            assert(concat_all(done) + cur.push(c) =~= (concat_all(done) + cur).push(c));
        }
    }
}

/// The whitespace tokens hold every non-white-space character of the
/// text, in order, and nothing else.
pub proof fn lemma_ws_tokens_content(s: Seq<char>)
    ensures
        concat_all(ws_tokens(s)) == non_ws_chars(s),
{
    lemma_ws_token_pass_content(s);
    let (done, cur) = ws_token_pass(s);
    if cur.len() > 0 {
        assert(done.push(cur).drop_last() =~= done);
    } else {
        assert(concat_all(done) + cur =~= concat_all(done));
    }
}

/// The tokens being built by [`ws_token_pass`] are non-empty (when
/// finished) and hold no white space.
proof fn lemma_ws_token_pass_clean(s: Seq<char>)
    ensures
        forall|i: int| 0 <= i < ws_token_pass(s).0.len() ==> (#[trigger] ws_token_pass(s).0[i]).len() > 0
            && forall|k: int| 0 <= k < ws_token_pass(s).0[i].len() ==> !is_ws(#[trigger] ws_token_pass(s).0[i][k]),
        forall|k: int| 0 <= k < ws_token_pass(s).1.len() ==> !is_ws(#[trigger] ws_token_pass(s).1[k]),
    decreases s.len(),
{
    if s.len() > 0 {
        lemma_ws_token_pass_clean(s.drop_last());
        let (done, cur) = ws_token_pass(s.drop_last());
        let c = s.last();
        if !is_ws(c) {
            assert forall|k: int| 0 <= k < cur.push(c).len() implies !is_ws(#[trigger] cur.push(c)[k]) by {
                if k < cur.len() {
                    assert(cur.push(c)[k] == cur[k]);
                }
            }
        } else if cur.len() > 0 {
            let d = done.push(cur);
            assert forall|i: int| 0 <= i < d.len() implies (#[trigger] d[i]).len() > 0
                && forall|k: int| 0 <= k < d[i].len() ==> !is_ws(#[trigger] d[i][k]) by {
                if i < done.len() {
                    assert(d[i] == done[i]);
                }
            }
        }
    }
}

/// The whitespace tokens are non-empty and hold no white space.
pub proof fn lemma_ws_tokens_clean(s: Seq<char>)
    ensures
        forall|i: int| 0 <= i < ws_tokens(s).len() ==> (#[trigger] ws_tokens(s)[i]).len() > 0
            && forall|k: int| 0 <= k < ws_tokens(s)[i].len() ==> !is_ws(#[trigger] ws_tokens(s)[i][k]),
{
    lemma_ws_token_pass_clean(s);
    let (done, cur) = ws_token_pass(s);
    if cur.len() > 0 {
        let d = done.push(cur);
        assert forall|i: int| 0 <= i < d.len() implies (#[trigger] d[i]).len() > 0
            && forall|k: int| 0 <= k < d[i].len() ==> !is_ws(#[trigger] d[i][k]) by {
            if i < done.len() {
                assert(d[i] == done[i]);
            }
        }
    }
}

proof fn lemma_find_none(s: Seq<char>, sep: Seq<char>, from: int)
    requires
        sep.len() > 0,
        0 <= from,
        forall|k: int| from <= k < s.len() ==> s[k] != sep[0],
    ensures
        find_from(s, sep, from) is None,
    decreases s.len() - from,
{
    if from + sep.len() <= s.len() {
        assert(s.subrange(from, from + sep.len())[0] == s[from]);
        lemma_find_none(s, sep, from + 1);
    }
}

proof fn lemma_find_at(s: Seq<char>, sep: Seq<char>, from: int, at: int)
    requires
        sep.len() > 0,
        0 <= from <= at,
        at + sep.len() <= s.len(),
        s.subrange(at, at + sep.len()) == sep,
        forall|k: int| from <= k < at ==> s[k] != sep[0],
    ensures
        find_from(s, sep, from) == Some(at),
    decreases at - from,
{
    if from < at {
        assert(s.subrange(from, from + sep.len())[0] == s[from]);
        lemma_find_at(s, sep, from + 1, at);
    }
}

proof fn lemma_or_join_head(toks: Seq<Seq<char>>)
    requires
        toks.len() >= 2,
    ensures
        or_join(toks) == quoted(toks[0]) + " OR "@ + or_join(toks.drop_first()),
    decreases toks.len(),
{
    let sep = " OR "@;
    let init = toks.drop_last();
    let rest = toks.drop_first();
    assert(init[0] == toks[0]);
    assert(rest.last() == toks.last());
    if toks.len() == 2 {
        assert(or_join(init) == quoted(toks[0]));
        assert(rest[0] == toks[1]);
        assert(or_join(rest) == quoted(toks[1]));
        assert(or_join(toks) == or_join(init) + sep + quoted(toks.last()));
    } else {
        lemma_or_join_head(init);
        assert(init.drop_first() =~= rest.drop_last());
        assert(or_join(toks) == or_join(init) + sep + quoted(toks.last()));
        assert(or_join(rest) == or_join(rest.drop_last()) + sep + quoted(rest.last()));
        assert(or_join(init) == quoted(toks[0]) + sep + or_join(rest.drop_last()));
        assert(or_join(toks) =~= quoted(toks[0]) + sep + or_join(rest));
    }
}

proof fn lemma_split_or_join(toks: Seq<Seq<char>>)
    requires
        toks.len() >= 1,
        forall|i: int, k: int| 0 <= i < toks.len() && 0 <= k < toks[i].len() ==> #[trigger] toks[i][k] != ' ',
    ensures
        split_sep(or_join(toks), " OR "@) == toks.map_values(|t: Seq<char>| seq!['"'] + t + seq!['"']),
    decreases toks.len(),
{
    let sep = " OR "@;
    reveal_strlit(" OR ");
    assert(sep.len() == 4 && sep[0] == ' ');
    let q0 = quoted(toks[0]);
    assert forall|k: int| 0 <= k < q0.len() implies q0[k] != ' ' by {
        if 0 < k < q0.len() - 1 {
            assert(q0[k] == toks[0][k - 1]);
        }
    }
    if toks.len() == 1 {
        lemma_find_none(q0, sep, 0);
        assert(or_join(toks) == q0);
        assert(split_sep(q0, sep) == seq![q0]);
        assert(toks.map_values(|t: Seq<char>| seq!['"'] + t + seq!['"']) =~= seq![q0]);
    } else {
        let rest = toks.drop_first();
        assert forall|i: int, k: int| 0 <= i < rest.len() && 0 <= k < rest[i].len() implies #[trigger] rest[i][k] != ' ' by {
            assert(rest[i] == toks[i + 1]);
        }
        lemma_split_or_join(rest);
        lemma_or_join_head(toks);
        let r = or_join(rest);
        let whole = q0 + sep + r;
        assert(or_join(toks) == whole);
        let at = q0.len() as int;
        assert(whole.subrange(at, at + 4) =~= sep);
        assert forall|k: int| 0 <= k < at implies whole[k] != sep[0] by {
            assert(whole[k] == q0[k]);
        }
        lemma_find_at(whole, sep, 0, at);
        assert(whole.take(at) =~= q0);
        assert(whole.skip(at + 4) =~= r);
        assert(split_sep(whole, sep) == seq![q0] + split_sep(r, sep));
        assert(toks.map_values(|t: Seq<char>| seq!['"'] + t + seq!['"']) =~= seq![q0]
            + rest.map_values(|t: Seq<char>| seq!['"'] + t + seq!['"']));
    }
}

/// The broadened query is an OR of every whitespace token of the
/// sanitized query, each in double quotes, in order: split on ` OR `, it
/// gives exactly the quoted tokens. There is none for fewer than two
/// tokens. The tokens themselves are non-empty, free of white space, and
/// together hold every other character of the query, in order.
pub proof fn lemma_or_fallback_quotes_every_token(s: Seq<char>)
    ensures
        or_fallback(s) is None <==> ws_tokens(s).len() < 2,
        or_fallback(s) matches Some(r) ==> split_sep(r, " OR "@)
            == ws_tokens(s).map_values(|t: Seq<char>| seq!['"'] + t + seq!['"']),
        forall|i: int| 0 <= i < ws_tokens(s).len() ==> (#[trigger] ws_tokens(s)[i]).len() > 0
            && forall|k: int| 0 <= k < ws_tokens(s)[i].len() ==> !is_ws(#[trigger] ws_tokens(s)[i][k]),
        concat_all(ws_tokens(s)) == non_ws_chars(s),
{
    lemma_ws_tokens_clean(s);
    lemma_ws_tokens_content(s);
    let toks = ws_tokens(s);
    if toks.len() >= 2 {
        assert forall|i: int, k: int| 0 <= i < toks.len() && 0 <= k < toks[i].len() implies #[trigger] toks[i][k] != ' ' by {
            assert(!is_ws(toks[i][k]));
        }
        lemma_split_or_join(toks);
    }
}

pub fn or_fallback_expr(sanitized: &str) -> (r: Option<String>)
    ensures
        r is None <==> or_fallback(sanitized@) is None,
        r matches Some(s) ==> or_fallback(sanitized@) == Some(s@),
{
    let s = str_chars(sanitized);
    let mut done: Vec<Vec<char>> = Vec::new();
    let mut cur: Vec<char> = Vec::new();
    let mut i: usize = 0;
    while i < s.len()
        invariant
            i <= s.len(),
            (crate::text::views(done@), cur@) == ws_token_pass(s@.take(i as int)),
        decreases s.len() - i,
    {
        let c = s[i];
        assert(s@.take(i + 1).drop_last() =~= s@.take(i as int));
        if is_whitespace(c) {
            if cur.len() > 0 {
                let t = cur;
                done.push(t);
                cur = Vec::new();
            }
        } else {
            cur.push(c);
        }
        assert((crate::text::views(done@), cur@) =~= ws_token_pass(s@.take(i + 1)));
        i += 1;
    }
    assert(s@.take(s.len() as int) =~= s@);
    if cur.len() > 0 {
        let t = cur;
        done.push(t);
    }
    let ghost toks = crate::text::views(done@);
    assert(toks =~= ws_tokens(s@));
    if done.len() < 2 {
        return None;
    }
    let mut out: Vec<char> = Vec::new();
    quote_into(&mut out, &done[0]);
    let mut k: usize = 1;
    assert(toks.take(1).len() == 1);
    assert(out@ =~= or_join(toks.take(1)));
    while k < done.len()
        invariant
            1 <= k <= done.len(),
            toks == crate::text::views(done@),
            out@ == or_join(toks.take(k as int)),
        decreases done.len() - k,
    {
        let sep = str_chars(" OR ");
        push_all(&mut out, &sep);
        quote_into(&mut out, &done[k]);
        assert(toks.take(k + 1).drop_last() =~= toks.take(k as int));
        assert(toks.take(k + 1).last() == done@[k as int]@);
        k += 1;
    }
    assert(toks.take(done.len() as int) =~= toks);
    Some(string_from_chars(out))
}

} // verus!
