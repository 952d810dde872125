//! Identifier tokenisation for name-similarity search.
//!
//! An identifier splits at every character that is not alphanumeric
//! (dropped), at a lower-case letter or digit followed by an upper-case
//! ASCII letter, and at letter/digit transitions; tokens are lower-cased
//! and empty ones dropped.
use vstd::prelude::*;
use crate::text::{
    alphanumeric, char_is_alphanumeric, char_to_lowercase, is_ascii_alpha, is_ascii_digit,
    is_ascii_lower, is_ascii_upper, push_all, str_chars, string_from_chars, unicode_lowercase,
};

verus! {

/// Tokeniser state: finished tokens, the token being read, the previous
/// character.
pub type TokState = (Seq<Seq<char>>, Seq<char>, Option<char>);

/// Closes the current token unless it is empty.
pub open spec fn flush(out: Seq<Seq<char>>, cur: Seq<char>) -> Seq<Seq<char>> {
    if cur.len() > 0 {
        out.push(cur)
    } else {
        out
    }
}

/// `c` starts a new token after `prev`.
pub open spec fn boundary(prev: Option<char>, c: char) -> bool {
    match prev {
        None => false,
        Some(p) => {
            ||| is_ascii_upper(c) && (is_ascii_lower(p) || is_ascii_digit(p))
            ||| is_ascii_alpha(c) && is_ascii_digit(p)
            ||| is_ascii_digit(c) && is_ascii_alpha(p)
        },
    }
}

/// The lower-case form of a character: the ASCII lower-case letter for
/// ASCII, the Unicode lower-case mapping beyond.
pub open spec fn lower_of(c: char) -> Seq<char> {
    if crate::text::is_ascii_char(c) {
        seq![crate::text::ascii_lower(c)]
    } else {
        unicode_lowercase(c)
    }
}

pub open spec fn tok_step(st: TokState, c: char) -> TokState {
    if !alphanumeric(c) {
        (flush(st.0, st.1), Seq::empty(), Some(c))
    } else if boundary(st.2, c) {
        (flush(st.0, st.1), lower_of(c), Some(c))
    } else {
        (st.0, st.1 + lower_of(c), Some(c))
    }
}

pub open spec fn tok_fold(s: Seq<char>) -> TokState
    decreases s.len(),
{
    if s.len() == 0 {
        (Seq::empty(), Seq::empty(), None)
    } else {
        tok_step(tok_fold(s.drop_last()), s.last())
    }
}

/// The lower-cased tokens of an identifier.
pub open spec fn tokens(s: Seq<char>) -> Seq<Seq<char>> {
    let st = tok_fold(s);
    flush(st.0, st.1)
}

pub open spec fn string_views(v: Seq<String>) -> Seq<Seq<char>> {
    v.map_values(|x: String| x@)
}

/// Moves a non-empty current token to the output.
pub fn push_if_nonempty(out: &mut Vec<String>, current: &mut Vec<char>)
    ensures
        string_views(final(out)@) == flush(string_views(old(out)@), old(current)@),
        final(current)@ == Seq::<char>::empty(),
{
    if current.len() > 0 {
        let mut taken: Vec<char> = Vec::new();
        std::mem::swap(&mut taken, current);
        let ghost before = string_views(out@);
        let ghost t = taken@;
        out.push(string_from_chars(taken));
        assert(string_views(out@) =~= before.push(t));
    }
}

/// Splits an identifier into lower-cased semantic tokens.
pub fn tokenize(s: &str) -> (out: Vec<String>)
    ensures
        string_views(out@) == tokens(s@),
{
    let cs = str_chars(s);
    let mut out: Vec<String> = Vec::new();
    let mut current: Vec<char> = Vec::new();
    let mut prev: Option<char> = None;
    let mut i: usize = 0;
    assert(cs@.take(0) =~= Seq::<char>::empty());
    while i < cs.len()
        invariant
            i <= cs.len(),
            cs@ == s@,
            (string_views(out@), current@, prev) == tok_fold(cs@.take(i as int)),
        decreases cs.len() - i,
    {
        let c = cs[i];
        assert(cs@.take(i + 1).drop_last() =~= cs@.take(i as int));
        assert(cs@.take(i + 1).last() == c);
        if !char_is_alphanumeric(c) {
            push_if_nonempty(&mut out, &mut current);
            prev = Some(c);
            i += 1;
            continue;
        }
        let p_lower_or_digit = match prev {
            Some(p) => ('a' <= p && p <= 'z') || ('0' <= p && p <= '9'),
            None => false,
        };
        let p_digit = match prev {
            Some(p) => '0' <= p && p <= '9',
            None => false,
        };
        let p_alpha = match prev {
            Some(p) => ('a' <= p && p <= 'z') || ('A' <= p && p <= 'Z'),
            None => false,
        };
        let c_upper = 'A' <= c && c <= 'Z';
        let c_alpha = c_upper || ('a' <= c && c <= 'z');
        let c_digit = '0' <= c && c <= '9';
        let split = (c_upper && p_lower_or_digit) || (c_alpha && p_digit) || (c_digit && p_alpha);
        assert(split == boundary(prev, c));
        if split {
            push_if_nonempty(&mut out, &mut current);
        }
        let lower = char_to_lowercase(c);
        push_all(&mut current, &lower);
        prev = Some(c);
        i += 1;
        proof {
            if split {
                assert(current@ =~= lower_of(c));
            }
        }
    }
    assert(cs@.take(cs.len() as int) =~= cs@);
    push_if_nonempty(&mut out, &mut current);
    out
}

/// No token is empty.
pub proof fn lemma_tokens_nonempty(s: Seq<char>)
    ensures
        forall|k: int| 0 <= k < tokens(s).len() ==> (#[trigger] tokens(s)[k]).len() > 0,
{
    lemma_tok_fold_nonempty(s);
}

proof fn lemma_tok_fold_nonempty(s: Seq<char>)
    ensures
        forall|k: int| 0 <= k < tok_fold(s).0.len() ==> (#[trigger] tok_fold(s).0[k]).len() > 0,
    decreases s.len(),
{
    if s.len() > 0 {
        lemma_tok_fold_nonempty(s.drop_last());
        let st = tok_fold(s.drop_last());
        let f = flush(st.0, st.1);
        assert forall|k: int| 0 <= k < f.len() implies (#[trigger] f[k]).len() > 0 by {
            if k < st.0.len() {
                assert(f[k] == st.0[k]);
            }
        }
    }
}

/// On an ASCII identifier every token is made of ASCII lower-case
/// letters and digits.
pub proof fn lemma_ascii_tokens_lowercase(s: Seq<char>)
    requires
        forall|k: int| 0 <= k < s.len() ==> crate::text::is_ascii_char(#[trigger] s[k]),
    ensures
        forall|k: int, j: int| 0 <= k < tokens(s).len() && 0 <= j < tokens(s)[k].len()
            ==> lower_alnum(#[trigger] tokens(s)[k][j]),
{
    lemma_ascii_fold_lowercase(s);
    let st = tok_fold(s);
    let f = flush(st.0, st.1);
    assert forall|k: int, j: int| 0 <= k < f.len() && 0 <= j < f[k].len() implies lower_alnum(#[trigger] f[k][j]) by {
        if k < st.0.len() {
            assert(f[k] == st.0[k]);
        } else {
            assert(f[k] == st.1);
        }
    }
}

/// An ASCII lower-case letter or digit.
pub open spec fn lower_alnum(c: char) -> bool {
    is_ascii_lower(c) || is_ascii_digit(c)
}

proof fn lemma_ascii_fold_lowercase(s: Seq<char>)
    requires
        forall|k: int| 0 <= k < s.len() ==> crate::text::is_ascii_char(#[trigger] s[k]),
    ensures
        forall|k: int, j: int| 0 <= k < tok_fold(s).0.len() && 0 <= j < tok_fold(s).0[k].len()
            ==> lower_alnum(#[trigger] tok_fold(s).0[k][j]),
        forall|j: int| 0 <= j < tok_fold(s).1.len() ==> lower_alnum(#[trigger] tok_fold(s).1[j]),
    decreases s.len(),
{
    if s.len() > 0 {
        let p = s.drop_last();
        assert forall|k: int| 0 <= k < p.len() implies crate::text::is_ascii_char(#[trigger] p[k]) by {
            assert(p[k] == s[k]);
        }
        lemma_ascii_fold_lowercase(p);
        let st = tok_fold(p);
        let c = s.last();
        assert(crate::text::is_ascii_char(s[s.len() - 1]));
        let f = flush(st.0, st.1);
        assert forall|k: int, j: int| 0 <= k < f.len() && 0 <= j < f[k].len() implies lower_alnum(#[trigger] f[k][j]) by {
            if k < st.0.len() {
                assert(f[k] == st.0[k]);
            } else {
                assert(f[k] == st.1);
            }
        }
        if alphanumeric(c) {
            assert(lower_alnum(crate::text::ascii_lower(c)));
            let l = lower_of(c);
            assert(l =~= seq![crate::text::ascii_lower(c)]);
            let n = st.1 + l;
            assert forall|j: int| 0 <= j < n.len() implies lower_alnum(#[trigger] n[j]) by {
                if j < st.1.len() {
                    assert(n[j] == st.1[j]);
                } else {
                    assert(n[j] == l[j - st.1.len()]);
                }
            }
        }
    }
}

/// An identifier made only of separators has no token.
pub proof fn lemma_tokens_of_separators(s: Seq<char>)
    requires
        forall|k: int| 0 <= k < s.len() ==> !alphanumeric(#[trigger] s[k]),
    ensures
        tokens(s) == Seq::<Seq<char>>::empty(),
{
    lemma_separators_fold(s);
}

proof fn lemma_separators_fold(s: Seq<char>)
    requires
        forall|k: int| 0 <= k < s.len() ==> !alphanumeric(#[trigger] s[k]),
    ensures
        tok_fold(s).0 == Seq::<Seq<char>>::empty(),
        tok_fold(s).1 == Seq::<char>::empty(),
    decreases s.len(),
{
    if s.len() > 0 {
        assert forall|k: int| 0 <= k < s.drop_last().len() implies !alphanumeric(#[trigger] s.drop_last()[k]) by {
            assert(s.drop_last()[k] == s[k]);
        }
        lemma_separators_fold(s.drop_last());
        assert(!alphanumeric(s[s.len() - 1]));
    }
}

// ---------------------------------------------------------------------
// Token overlap
// ---------------------------------------------------------------------

/// The distinct tokens of a token list.
pub open spec fn token_set(v: Seq<String>) -> Set<Seq<char>> {
    string_views(v).to_set()
}

fn has_text(s: &Vec<String>, t: &String) -> (b: bool)
    ensures
        b == string_views(s@).contains(t@),
{
    let mut i: usize = 0;
    while i < s.len()
        invariant
            i <= s.len(),
            forall|j: int| 0 <= j < i ==> (#[trigger] string_views(s@)[j]) != t@,
        decreases s.len() - i,
    {
        if crate::text::string_eq(&s[i], t) {
            assert(string_views(s@)[i as int] == t@);
            return true;
        }
        i += 1;
    }
    false
}

/// `o` holds exactly the texts of `st`, plus those of `p` outside `ex`.
pub open spec fn holds_exactly(o: Seq<Seq<char>>, st: Seq<Seq<char>>, p: Seq<Seq<char>>, ex: Seq<Seq<char>>) -> bool {
    forall|x: Seq<char>| #[trigger] o.contains(x) == (st.contains(x) || (p.contains(x) && !ex.contains(x)))
}

proof fn lemma_holds_exactly_step(
    o: Seq<Seq<char>>,
    o2: Seq<Seq<char>>,
    st: Seq<Seq<char>>,
    p: Seq<Seq<char>>,
    t: Seq<char>,
    ex: Seq<Seq<char>>,
)
    requires
        holds_exactly(o, st, p, ex),
        (!ex.contains(t) && !o.contains(t)) ==> o2 == o.push(t),
        (ex.contains(t) || o.contains(t)) ==> o2 == o,
    ensures
        holds_exactly(o2, st, p.push(t), ex),
{
    assert forall|x: Seq<char>| #[trigger] o2.contains(x) == (st.contains(x) || (p.push(t).contains(x)
        && !ex.contains(x))) by {
        assert(o.contains(x) == (st.contains(x) || (p.contains(x) && !ex.contains(x))));
        assert(p.push(t).contains(x) == (p.contains(x) || x == t)) by {
            if p.push(t).contains(x) {
                let k = choose|k: int| 0 <= k < p.push(t).len() && p.push(t)[k] == x;
                if k < p.len() {
                    assert(p[k] == x);
                }
            }
            if p.contains(x) {
                let k = choose|k: int| 0 <= k < p.len() && p[k] == x;
                assert(p.push(t)[k] == x);
            }
            if x == t {
                assert(p.push(t)[p.len() as int] == x);
            }
        }
        if !ex.contains(t) && !o.contains(t) {
            assert(o.push(t).contains(x) == (o.contains(x) || x == t)) by {
                if o.push(t).contains(x) {
                    let k = choose|k: int| 0 <= k < o.push(t).len() && o.push(t)[k] == x;
                    if k < o.len() {
                        assert(o[k] == x);
                    }
                }
                if o.contains(x) {
                    let k = choose|k: int| 0 <= k < o.len() && o[k] == x;
                    assert(o.push(t)[k] == x);
                }
                if x == t {
                    assert(o.push(t)[o.len() as int] == x);
                }
            }
        }
    }
}

/// Appends to `out` (distinct texts) each text of `src` that is not in
/// `exclude` and not already there.
fn push_new_from(out: &mut Vec<String>, src: &Vec<String>, exclude: &Vec<String>)
    requires
        string_views(old(out)@).no_duplicates(),
    ensures
        string_views(final(out)@).no_duplicates(),
        holds_exactly(string_views(final(out)@), string_views(old(out)@), string_views(src@), string_views(exclude@)),
{
    let ghost start = string_views(out@);
    let mut i: usize = 0;
    assert(holds_exactly(start, start, string_views(src@).take(0), string_views(exclude@))) by {
        assert forall|x: Seq<char>| #[trigger] start.contains(x) == (start.contains(x) || (string_views(src@).take(0).contains(x) && !string_views(exclude@).contains(x))) by {
            if string_views(src@).take(0).contains(x) {
                let k = choose|k: int| 0 <= k < string_views(src@).take(0).len() && string_views(src@).take(0)[k] == x;
            }
        }
    }
    while i < src.len()
        invariant
            i <= src.len(),
            string_views(out@).no_duplicates(),
            holds_exactly(string_views(out@), start, string_views(src@).take(i as int), string_views(exclude@)),
        decreases src.len() - i,
    {
        let ghost before = string_views(out@);
        let ghost pre = string_views(src@).take(i as int);
        let ghost t = src@[i as int]@;
        assert(string_views(src@).take(i + 1) =~= pre.push(t));
        let skip_it = has_text(exclude, &src[i]);
        let present = has_text(out, &src[i]);
        if !skip_it && !present {
            out.push(src[i].clone());
            assert(string_views(out@) =~= before.push(t));
        }
        proof {
            lemma_holds_exactly_step(before, string_views(out@), start, pre, t, string_views(exclude@));
        }
        i += 1;
    }
    assert(string_views(src@).take(src.len() as int) =~= string_views(src@));
}

proof fn lemma_set_len_of_distinct(d: Seq<Seq<char>>, s: Set<Seq<char>>)
    requires
        d.no_duplicates(),
        forall|x: Seq<char>| d.contains(x) <==> s.contains(x),
    ensures
        s.finite(),
        s.len() == d.len(),
{
    d.unique_seq_to_set();
    assert(d.to_set() =~= s);
}

/// Token-set overlap of two identifiers' tokens: the number of distinct
/// tokens they share and the number of distinct tokens in either (the
/// numerator and denominator of their Jaccard index).
pub fn token_overlap(a: &Vec<String>, b: &Vec<String>) -> (r: (usize, usize))
    ensures
        token_set(a@).intersect(token_set(b@)).finite(),
        token_set(a@).union(token_set(b@)).finite(),
        r.0 == token_set(a@).intersect(token_set(b@)).len(),
        r.1 == token_set(a@).union(token_set(b@)).len(),
{
    let none: Vec<String> = Vec::new();
    // tokens of `a` missing from `b`
    let mut only_a: Vec<String> = Vec::new();
    assert(string_views(only_a@) =~= Seq::<Seq<char>>::empty());
    push_new_from(&mut only_a, a, b);
    // tokens of `a` not missing from `b`: the shared ones
    let mut shared: Vec<String> = Vec::new();
    assert(string_views(shared@) =~= Seq::<Seq<char>>::empty());
    push_new_from(&mut shared, a, &only_a);
    // tokens of `a`, then those of `b` not in `a`
    let mut either: Vec<String> = Vec::new();
    assert(string_views(either@) =~= Seq::<Seq<char>>::empty());
    push_new_from(&mut either, a, &none);
    push_new_from(&mut either, b, a);
    proof {
        assert(string_views(none@) =~= Seq::<Seq<char>>::empty());
        let sa = token_set(a@);
        let sb = token_set(b@);
        assert forall|x: Seq<char>| string_views(shared@).contains(x) <==> sa.intersect(sb).contains(x) by {
            assert(string_views(shared@).contains(x) == (string_views(a@).contains(x) && !string_views(only_a@).contains(x)));
            assert(string_views(only_a@).contains(x) == (string_views(a@).contains(x) && !string_views(b@).contains(x)));
        }
        assert forall|x: Seq<char>| string_views(either@).contains(x) <==> sa.union(sb).contains(x) by {
            assert(string_views(either@).contains(x) == (string_views(a@).contains(x) || (string_views(b@).contains(x) && !string_views(a@).contains(x))));
        }
        lemma_set_len_of_distinct(string_views(shared@), sa.intersect(sb));
        lemma_set_len_of_distinct(string_views(either@), sa.union(sb));
    }
    (shared.len(), either.len())
}

} // verus!
