//! Character-sequence helpers shared by every text-processing module.
//!
//! Text is modelled as `Seq<char>` (the view of `str` and `String`).
//! Executable helpers work on `Vec<char>` / `&[char]` and are proved
//! against the spec functions defined here.
use vstd::prelude::*;

verus! {

// ---------------------------------------------------------------------
// Character classes
// ---------------------------------------------------------------------

/// Unicode `White_Space` property (what `char::is_whitespace` tests).
pub open spec fn is_ws(c: char) -> bool {
    ||| ('\u{9}' <= c && c <= '\u{d}')
    ||| c == ' '
    ||| c == '\u{85}'
    ||| c == '\u{a0}'
    ||| c == '\u{1680}'
    ||| ('\u{2000}' <= c && c <= '\u{200a}')
    ||| c == '\u{2028}'
    ||| c == '\u{2029}'
    ||| c == '\u{202f}'
    ||| c == '\u{205f}'
    ||| c == '\u{3000}'
}

pub fn is_whitespace(c: char) -> (b: bool)
    ensures
        b == is_ws(c),
{
    ('\u{9}' <= c && c <= '\u{d}') || c == ' ' || c == '\u{85}' || c == '\u{a0}'
        || c == '\u{1680}' || ('\u{2000}' <= c && c <= '\u{200a}') || c == '\u{2028}'
        || c == '\u{2029}' || c == '\u{202f}' || c == '\u{205f}' || c == '\u{3000}'
}

pub open spec fn is_ascii_upper(c: char) -> bool {
    'A' <= c && c <= 'Z'
}

pub open spec fn is_ascii_lower(c: char) -> bool {
    'a' <= c && c <= 'z'
}

pub open spec fn is_ascii_digit(c: char) -> bool {
    '0' <= c && c <= '9'
}

pub open spec fn is_ascii_alpha(c: char) -> bool {
    is_ascii_upper(c) || is_ascii_lower(c)
}

pub open spec fn is_ascii_alnum(c: char) -> bool {
    is_ascii_alpha(c) || is_ascii_digit(c)
}

pub open spec fn is_ascii_char(c: char) -> bool {
    (c as u32) < 128
}

/// ASCII lower-casing of one character (`char::to_ascii_lowercase`).
pub open spec fn ascii_lower(c: char) -> char {
    if is_ascii_upper(c) {
        ((c as u32) + 32) as char
    } else {
        c
    }
}

pub fn to_ascii_lower(c: char) -> (r: char)
    ensures
        r == ascii_lower(c),
{
    if 'A' <= c && c <= 'Z' {
        let b: u8 = (c as u8) + 32;
        b as char
    } else {
        c
    }
}

pub open spec fn ascii_lower_seq(s: Seq<char>) -> Seq<char> {
    s.map_values(|c: char| ascii_lower(c))
}

/// Result of `char::is_alphanumeric` (Unicode `Alphabetic` or `Numeric`).
pub uninterp spec fn unicode_alphanumeric(c: char) -> bool;

/// `char::is_alphanumeric`: the ASCII letter/digit test on ASCII input,
/// the Unicode property beyond.
pub open spec fn alphanumeric(c: char) -> bool {
    if is_ascii_char(c) {
        is_ascii_alnum(c)
    } else {
        unicode_alphanumeric(c)
    }
}

/// Calls `char::is_alphanumeric`. Claims that on ASCII input the result is
/// the ASCII letter/digit test, as the standard library documents, and
/// beyond ASCII the named Unicode property of `c`.
#[verifier::external_body]
pub fn char_is_alphanumeric(c: char) -> (b: bool)
    ensures
        !is_ascii_char(c) ==> b == unicode_alphanumeric(c),
        is_ascii_char(c) ==> b == is_ascii_alnum(c),
{
    c.is_alphanumeric()
}

/// Characters produced by `char::to_lowercase` (Unicode lower-case mapping).
pub uninterp spec fn unicode_lowercase(c: char) -> Seq<char>;

/// Calls `char::to_lowercase` and collects its characters. Claims the
/// result is the named Unicode mapping of `c`, and that an ASCII character
/// maps to its single ASCII lower-case form.
#[verifier::external_body]
pub fn char_to_lowercase(c: char) -> (v: Vec<char>)
    ensures
        v@ == unicode_lowercase(c),
        is_ascii_char(c) ==> v@ == seq![ascii_lower(c)],
{
    c.to_lowercase().collect()
}

// ---------------------------------------------------------------------
// Conversions
// ---------------------------------------------------------------------

/// Collects the characters of `s` into a vector.
pub fn str_chars(s: &str) -> (v: Vec<char>)
    ensures
        v@ == s@,
{
    let mut v: Vec<char> = Vec::new();
    for c in it: s.chars()
        invariant
            v@ == it.seq().take(it.index()),
    {
        v.push(c);
    }
    v
}

/// Builds a `String` holding exactly the characters of `v`
/// (`String::from_iter` over the vector's characters).
#[verifier::external_body]
pub fn string_from_chars(v: Vec<char>) -> (s: String)
    ensures
        s@ == v@,
{
    String::from_iter(v)
}

/// Copies a character slice into a fresh vector.
pub fn chars_to_vec(s: &[char]) -> (v: Vec<char>)
    ensures
        v@ == s@,
{
    let mut v: Vec<char> = Vec::new();
    let mut i: usize = 0;
    while i < s.len()
        invariant
            i <= s.len(),
            v@ == s@.take(i as int),
        decreases s.len() - i,
    {
        v.push(s[i]);
        i += 1;
        assert(v@ =~= s@.take(i as int));
    }
    assert(s@.take(s.len() as int) =~= s@);
    v
}

/// Copies `s[from..to]` into a fresh vector.
pub fn subrange_vec(s: &[char], from: usize, to: usize) -> (v: Vec<char>)
    requires
        from <= to <= s.len(),
    ensures
        v@ == s@.subrange(from as int, to as int),
{
    let mut v: Vec<char> = Vec::new();
    let mut i: usize = from;
    while i < to
        invariant
            from <= i <= to <= s.len(),
            v@ == s@.subrange(from as int, i as int),
        decreases to - i,
    {
        v.push(s[i]);
        i += 1;
        assert(v@ =~= s@.subrange(from as int, i as int));
    }
    v
}

/// Appends every character of `src` to `dst`.
pub fn push_all(dst: &mut Vec<char>, src: &[char])
    ensures
        final(dst)@ == old(dst)@ + src@,
{
    let mut i: usize = 0;
    while i < src.len()
        invariant
            i <= src.len(),
            dst@ == old(dst)@ + src@.take(i as int),
        decreases src.len() - i,
    {
        dst.push(src[i]);
        i += 1;
        assert(dst@ =~= old(dst)@ + src@.take(i as int));
    }
    assert(src@.take(src.len() as int) =~= src@);
}

/// Appends the characters of `s` to `dst`.
pub fn append_str(dst: &mut Vec<char>, s: &str)
    ensures
        final(dst)@ == old(dst)@ + s@,
{
    let v = str_chars(s);
    push_all(dst, &v);
}

// ---------------------------------------------------------------------
// Prefix / suffix / infix
// ---------------------------------------------------------------------

pub open spec fn starts_with(s: Seq<char>, p: Seq<char>) -> bool {
    p.len() <= s.len() && s.subrange(0, p.len() as int) == p
}

pub open spec fn ends_with(s: Seq<char>, p: Seq<char>) -> bool {
    p.len() <= s.len() && s.subrange(s.len() - p.len(), s.len() as int) == p
}

pub open spec fn occurs_at(s: Seq<char>, p: Seq<char>, i: int) -> bool {
    0 <= i && i + p.len() <= s.len() && s.subrange(i, i + p.len()) == p
}

pub open spec fn contains_sub(s: Seq<char>, p: Seq<char>) -> bool {
    exists|i: int| occurs_at(s, p, i)
}

/// `true` when `p` occurs in `s` starting at index `i`.
pub fn matches_at(s: &[char], p: &[char], i: usize) -> (b: bool)
    ensures
        b == occurs_at(s@, p@, i as int),
{
    if i > s.len() || p.len() > s.len() - i {
        return false;
    }
    let mut k: usize = 0;
    while k < p.len()
        invariant
            i + p.len() <= s.len(),
            k <= p.len(),
            forall|j: int| 0 <= j < k ==> s@[i + j] == p@[j],
        decreases p.len() - k,
    {
        if s[i + k] != p[k] {
            assert(s@.subrange(i as int, i + p.len())[k as int] != p@[k as int]);
            return false;
        }
        k += 1;
    }
    assert(s@.subrange(i as int, i + p.len()) =~= p@);
    true
}

pub fn has_prefix(s: &[char], p: &[char]) -> (b: bool)
    ensures
        b == starts_with(s@, p@),
{
    matches_at(s, p, 0)
}

pub fn has_suffix(s: &[char], p: &[char]) -> (b: bool)
    ensures
        b == ends_with(s@, p@),
{
    if p.len() > s.len() {
        return false;
    }
    matches_at(s, p, s.len() - p.len())
}

pub fn contains_seq(s: &[char], p: &[char]) -> (b: bool)
    ensures
        b == contains_sub(s@, p@),
{
    if p.len() > s.len() {
        assert(forall|i: int| !occurs_at(s@, p@, i));
        return false;
    }
    let last: usize = s.len() - p.len();
    let mut i: usize = 0;
    while i <= last
        invariant
            last + p.len() == s.len(),
            i <= last + 1,
            forall|j: int| 0 <= j < i ==> !occurs_at(s@, p@, j),
        decreases last + 1 - i,
    {
        if matches_at(s, p, i) {
            return true;
        }
        if i == last {
            assert(forall|j: int| !occurs_at(s@, p@, j));
            return false;
        }
        i += 1;
    }
    assert(forall|j: int| !occurs_at(s@, p@, j));
    false
}

/// `true` when the character `c` occurs in `s`.
pub fn contains_char(s: &[char], c: char) -> (b: bool)
    ensures
        b == s@.contains(c),
{
    let mut i: usize = 0;
    while i < s.len()
        invariant
            i <= s.len(),
            forall|j: int| 0 <= j < i ==> s@[j] != c,
        decreases s.len() - i,
    {
        if s[i] == c {
            return true;
        }
        i += 1;
    }
    false
}

pub fn seq_eq(a: &[char], b: &[char]) -> (r: bool)
    ensures
        r == (a@ == b@),
{
    if a.len() != b.len() {
        return false;
    }
    let r = matches_at(a, b, 0);
    proof {
        if r {
            assert(a@.subrange(0, a@.len() as int) =~= a@);
        } else {
            assert(a@.subrange(0, a@.len() as int) =~= a@);
        }
    }
    r
}

// ---------------------------------------------------------------------
// Whitespace trimming
// ---------------------------------------------------------------------

/// `str::trim_start`.
pub open spec fn trim_start(s: Seq<char>) -> Seq<char>
    decreases s.len(),
{
    if s.len() > 0 && is_ws(s[0]) {
        trim_start(s.drop_first())
    } else {
        s
    }
}

/// `str::trim_end`.
pub open spec fn trim_end(s: Seq<char>) -> Seq<char>
    decreases s.len(),
{
    if s.len() > 0 && is_ws(s.last()) {
        trim_end(s.drop_last())
    } else {
        s
    }
}

/// `str::trim`.
pub open spec fn trim(s: Seq<char>) -> Seq<char> {
    trim_end(trim_start(s))
}

/// Every character is white space (so `trim` gives the empty text).
pub open spec fn all_ws(s: Seq<char>) -> bool {
    forall|j: int| 0 <= j < s.len() ==> is_ws(#[trigger] s[j])
}

/// Index of the first non-white-space character (`s.len()` when none).
pub fn ws_prefix_end(s: &[char]) -> (k: usize)
    ensures
        k <= s.len(),
        trim_start(s@) == s@.skip(k as int),
        forall|j: int| 0 <= j < k ==> is_ws(#[trigger] s@[j]),
        k < s.len() ==> !is_ws(s@[k as int]),
{
    let mut i: usize = 0;
    assert(s@.skip(0) =~= s@);
    while i < s.len() && is_whitespace(s[i])
        invariant
            i <= s.len(),
            trim_start(s@) == trim_start(s@.skip(i as int)),
            forall|j: int| 0 <= j < i ==> is_ws(#[trigger] s@[j]),
        decreases s.len() - i,
    {
        assert(s@.skip(i as int).drop_first() =~= s@.skip(i + 1));
        i += 1;
    }
    i
}

/// Index one past the last non-white-space character (`0` when none).
pub fn ws_suffix_start(s: &[char]) -> (k: usize)
    ensures
        k <= s.len(),
        trim_end(s@) == s@.take(k as int),
        forall|j: int| k <= j < s.len() ==> is_ws(#[trigger] s@[j]),
        k > 0 ==> !is_ws(s@[k - 1]),
{
    let mut i: usize = s.len();
    assert(s@.take(s.len() as int) =~= s@);
    while i > 0 && is_whitespace(s[i - 1])
        invariant
            i <= s.len(),
            trim_end(s@) == trim_end(s@.take(i as int)),
            forall|j: int| i <= j < s.len() ==> is_ws(#[trigger] s@[j]),
        decreases i,
    {
        assert(s@.take(i as int).drop_last() =~= s@.take(i - 1));
        i -= 1;
    }
    i
}

pub proof fn lemma_trim_start_all_ws(s: Seq<char>)
    ensures
        all_ws(s) <==> trim_start(s).len() == 0,
    decreases s.len(),
{
    if s.len() > 0 {
        lemma_trim_start_all_ws(s.drop_first());
        if is_ws(s[0]) {
            assert forall|j: int| 0 <= j < s.len() && all_ws(s.drop_first()) implies is_ws(s[j]) by {
                if j > 0 {
                    assert(s[j] == s.drop_first()[j - 1]);
                }
            }
            if all_ws(s) {
                assert forall|j: int| 0 <= j < s.drop_first().len() implies is_ws(
                    s.drop_first()[j],
                ) by {
                    assert(s.drop_first()[j] == s[j + 1]);
                }
            }
        } else {
            assert(!is_ws(s[0]));
        }
    }
}

pub proof fn lemma_trim_end_keeps_head(s: Seq<char>)
    requires
        s.len() > 0,
        !is_ws(s[0]),
    ensures
        trim_end(s).len() > 0,
    decreases s.len(),
{
    if is_ws(s.last()) {
        assert(s.len() > 1);
        assert(s.drop_last()[0] == s[0]);
        lemma_trim_end_keeps_head(s.drop_last());
    }
}

pub proof fn lemma_trim_start_head(s: Seq<char>)
    ensures
        trim_start(s).len() > 0 ==> !is_ws(trim_start(s)[0]),
    decreases s.len(),
{
    if s.len() > 0 && is_ws(s[0]) {
        lemma_trim_start_head(s.drop_first());
    }
}

/// Every character is white space (`s.trim().is_empty()`).
pub fn is_blank(s: &[char]) -> (b: bool)
    ensures
        b == all_ws(s@),
        b == (trim(s@).len() == 0),
{
    let k = ws_prefix_end(s);
    proof {
        lemma_trim_start_all_ws(s@);
        lemma_trim_start_head(s@);
        if trim_start(s@).len() > 0 {
            lemma_trim_end_keeps_head(trim_start(s@));
        }
    }
    k == s.len()
}

/// `str::trim_start` on a character slice.
pub fn trim_start_vec(s: &[char]) -> (v: Vec<char>)
    ensures
        v@ == trim_start(s@),
{
    let k = ws_prefix_end(s);
    subrange_vec(s, k, s.len())
}

/// `str::trim_end` on a character slice.
pub fn trim_end_vec(s: &[char]) -> (v: Vec<char>)
    ensures
        v@ == trim_end(s@),
{
    let k = ws_suffix_start(s);
    subrange_vec(s, 0, k)
}

/// `str::trim` on a character slice.
pub fn trim_vec(s: &[char]) -> (v: Vec<char>)
    ensures
        v@ == trim(s@),
{
    let a = trim_start_vec(s);
    trim_end_vec(&a)
}

} // verus!

verus! {

// ---------------------------------------------------------------------
// Splitting
// ---------------------------------------------------------------------

/// Views of a vector of character vectors.
pub open spec fn views(v: Seq<Vec<char>>) -> Seq<Seq<char>> {
    v.map_values(|x: Vec<char>| x@)
}

/// `str::split(c)`: the maximal `c`-free pieces, in order. Always at
/// least one piece (the empty text gives one empty piece).
pub open spec fn split_char(s: Seq<char>, c: char) -> Seq<Seq<char>>
    decreases s.len(),
{
    if s.len() == 0 {
        seq![Seq::<char>::empty()]
    } else {
        let init = split_char(s.drop_last(), c);
        if s.last() == c {
            init.push(Seq::<char>::empty())
        } else {
            init.update(init.len() - 1, init.last().push(s.last()))
        }
    }
}

pub proof fn lemma_split_char_nonempty(s: Seq<char>, c: char)
    ensures
        split_char(s, c).len() >= 1,
    decreases s.len(),
{
    if s.len() > 0 {
        lemma_split_char_nonempty(s.drop_last(), c);
    }
}

/// Splits `s` at every occurrence of `c` (`str::split`).
pub fn split_on(s: &[char], c: char) -> (pieces: Vec<Vec<char>>)
    ensures
        views(pieces@) == split_char(s@, c),
{
    let mut pieces: Vec<Vec<char>> = Vec::new();
    let mut cur: Vec<char> = Vec::new();
    let mut i: usize = 0;
    assert(s@.take(0) =~= Seq::<char>::empty());
    assert(views(pieces@) + seq![cur@] =~= split_char(s@.take(0), c));
    while i < s.len()
        invariant
            i <= s.len(),
            views(pieces@) + seq![cur@] == split_char(s@.take(i as int), c),
        decreases s.len() - i,
    {
        let ghost before = s@.take(i as int);
        assert(s@.take(i + 1).drop_last() =~= before);
        assert(s@.take(i + 1).last() == s@[i as int]);
        proof {
            lemma_split_char_nonempty(before, c);
        }
        if s[i] == c {
            let done = cur;
            pieces.push(done);
            cur = Vec::new();
            assert(views(pieces@) + seq![cur@] =~= split_char(s@.take(i + 1), c));
        } else {
            cur.push(s[i]);
            assert(views(pieces@) + seq![cur@] =~= split_char(s@.take(i + 1), c));
        }
        i += 1;
    }
    assert(s@.take(s.len() as int) =~= s@);
    pieces.push(cur);
    assert(views(pieces@) =~= split_char(s@, c));
    pieces
}

/// The pieces joined with `sep` between consecutive ones (`[T]::join`).
pub open spec fn join_with(ls: Seq<Seq<char>>, sep: char) -> Seq<char>
    decreases ls.len(),
{
    if ls.len() == 0 {
        Seq::empty()
    } else if ls.len() == 1 {
        ls[0]
    } else {
        join_with(ls.drop_last(), sep).push(sep) + ls.last()
    }
}

/// Joins the pieces with `sep` (`[T]::join`).
pub fn join_pieces(ls: &[Vec<char>], sep: char) -> (v: Vec<char>)
    ensures
        v@ == join_with(views(ls@), sep),
{
    let ghost ps = views(ls@);
    let mut out: Vec<char> = Vec::new();
    let mut i: usize = 0;
    assert(ps.take(0) =~= Seq::<Seq<char>>::empty());
    while i < ls.len()
        invariant
            i <= ls.len(),
            ps == views(ls@),
            out@ == join_with(ps.take(i as int), sep),
        decreases ls.len() - i,
    {
        assert(ps.take(i + 1).drop_last() =~= ps.take(i as int));
        assert(ps.take(i + 1).last() == ls@[i as int]@);
        if i > 0 {
            out.push(sep);
        } else {
            assert(ps.take(1) =~= seq![ls@[0]@]);
        }
        push_all(&mut out, &ls[i]);
        i += 1;
    }
    assert(ps.take(ls.len() as int) =~= ps);
    out
}

/// Splitting a join on a separator that no piece holds gives the pieces back.
pub proof fn lemma_split_join(ls: Seq<Seq<char>>, c: char)
    requires
        ls.len() >= 1,
        forall|i: int| 0 <= i < ls.len() ==> !(#[trigger] ls[i]).contains(c),
    ensures
        split_char(join_with(ls, c), c) == ls,
    decreases ls.len(),
{
    if ls.len() == 1 {
        lemma_split_piece(ls[0], c);
        assert(seq![ls[0]] =~= ls);
    } else {
        let init = ls.drop_last();
        assert forall|i: int| 0 <= i < init.len() implies !(#[trigger] init[i]).contains(c) by {
            assert(init[i] == ls[i]);
        }
        lemma_split_join(init, c);
        lemma_split_append(join_with(init, c), ls.last(), c);
        assert(split_char(join_with(init, c), c).push(Seq::empty()) + Seq::<Seq<char>>::empty() == init.push(Seq::empty()));
        assert(init.push(ls.last()) =~= ls);
    }
}

/// A piece free of `c` splits into itself.
proof fn lemma_split_piece(p: Seq<char>, c: char)
    requires
        !p.contains(c),
    ensures
        split_char(p, c) == seq![p],
    decreases p.len(),
{
    if p.len() > 0 {
        assert(!p.drop_last().contains(c)) by {
            if p.drop_last().contains(c) {
                let k = choose|k: int| 0 <= k < p.drop_last().len() && p.drop_last()[k] == c;
                assert(p[k] == c);
            }
        }
        lemma_split_piece(p.drop_last(), c);
        assert(p.last() != c) by {
            assert(p[p.len() - 1] == p.last());
        }
        assert(p.drop_last().push(p.last()) =~= p);
        let init = split_char(p.drop_last(), c);
        assert(init == seq![p.drop_last()]);
        assert(split_char(p, c) == init.update(init.len() - 1, init.last().push(p.last())));
        assert(init.update(init.len() - 1, init.last().push(p.last())) =~= seq![p]);
    } else {
        assert(p =~= Seq::<char>::empty());
    }
}

/// Splitting `a + [c] + b`, where `b` holds no `c`, splits `a` and adds `b`.
proof fn lemma_split_append(a: Seq<char>, b: Seq<char>, c: char)
    requires
        !b.contains(c),
    ensures
        split_char(a.push(c) + b, c) == split_char(a, c).push(b),
    decreases b.len(),
{
    if b.len() == 0 {
        assert(a.push(c) + b =~= a.push(c));
        assert(a.push(c).drop_last() =~= a);
        assert(a.push(c).last() == c);
        assert(b =~= Seq::<char>::empty());
    } else {
        assert(!b.drop_last().contains(c)) by {
            if b.drop_last().contains(c) {
                let k = choose|k: int| 0 <= k < b.drop_last().len() && b.drop_last()[k] == c;
                assert(b[k] == c);
            }
        }
        lemma_split_append(a, b.drop_last(), c);
        let s = a.push(c) + b;
        assert(s.drop_last() =~= a.push(c) + b.drop_last());
        assert(s.last() == b.last());
        assert(b.last() != c) by {
            assert(b[b.len() - 1] == b.last());
        }
        lemma_split_char_nonempty(a, c);
        assert(b.drop_last().push(b.last()) =~= b);
        let sa = split_char(a, c);
        let init = split_char(s.drop_last(), c);
        assert(init == sa.push(b.drop_last()));
        assert(split_char(s, c) == init.update(init.len() - 1, init.last().push(s.last())));
        assert(sa.push(b.drop_last()).update(sa.len() as int, b.drop_last().push(b.last())) =~= sa.push(b));
    }
}

/// Replaces every `from` character by `to`.
pub open spec fn replace_char(s: Seq<char>, from: char, to: char) -> Seq<char> {
    s.map_values(|x: char| if x == from { to } else { x })
}

pub fn replace_char_vec(s: &[char], from: char, to: char) -> (v: Vec<char>)
    ensures
        v@ == replace_char(s@, from, to),
{
    let mut v: Vec<char> = Vec::new();
    let mut i: usize = 0;
    while i < s.len()
        invariant
            i <= s.len(),
            v@ == replace_char(s@.take(i as int), from, to),
        decreases s.len() - i,
    {
        let x = s[i];
        v.push(if x == from { to } else { x });
        i += 1;
        assert(v@ =~= replace_char(s@.take(i as int), from, to));
    }
    assert(s@.take(s.len() as int) =~= s@);
    v
}

/// Index of the last occurrence of `c` in `s`, if any.
pub open spec fn last_index_of(s: Seq<char>, c: char) -> Option<int> {
    if exists|i: int| 0 <= i < s.len() && s[i] == c {
        Some(choose|i: int| 0 <= i < s.len() && s[i] == c && (forall|j: int| i < j < s.len() ==> s[j] != c))
    } else {
        None
    }
}

pub fn rfind_char(s: &[char], c: char) -> (r: Option<usize>)
    ensures
        r is None ==> forall|j: int| 0 <= j < s.len() ==> s@[j] != c,
        r matches Some(i) ==> i < s.len() && s@[i as int] == c && (forall|j: int| i < j < s.len() ==> s@[j] != c),
        r matches Some(i) ==> last_index_of(s@, c) == Some(i as int),
        r is None ==> last_index_of(s@, c) is None,
{
    let mut i: usize = s.len();
    while i > 0
        invariant
            i <= s.len(),
            forall|j: int| i <= j < s.len() ==> s@[j] != c,
        decreases i,
    {
        if s[i - 1] == c {
            let k: usize = i - 1;
            proof {
                assert(0 <= k < s.len() && s@[k as int] == c);
                let w = choose|w: int| 0 <= w < s@.len() && s@[w] == c && (forall|j: int| w < j < s@.len() ==> s@[j] != c);
                if w < k {
                    assert(s@[k as int] != c);
                }
                if w > k {
                    assert(s@[w] != c);
                }
            }
            return Some(k);
        }
        i -= 1;
    }
    None
}

} // verus!

verus! {

/// `s` equals the text of `lit`.
pub fn eq_lit(s: &[char], lit: &str) -> (b: bool)
    ensures
        b == (s@ == lit@),
{
    let l = str_chars(lit);
    seq_eq(s, &l)
}

/// `s` starts with the text of `lit`.
pub fn starts_with_lit(s: &[char], lit: &str) -> (b: bool)
    ensures
        b == starts_with(s@, lit@),
{
    let l = str_chars(lit);
    has_prefix(s, &l)
}

/// `s` ends with the text of `lit`.
pub fn ends_with_lit(s: &[char], lit: &str) -> (b: bool)
    ensures
        b == ends_with(s@, lit@),
{
    let l = str_chars(lit);
    has_suffix(s, &l)
}

/// The text of `lit` occurs somewhere in `s`.
pub fn contains_lit(s: &[char], lit: &str) -> (b: bool)
    ensures
        b == contains_sub(s@, lit@),
{
    let l = str_chars(lit);
    contains_seq(s, &l)
}

} // verus!

verus! {

/// Character-wise equality of two strings.
pub fn string_eq(a: &String, b: &String) -> (r: bool)
    ensures
        r == (a@ == b@),
{
    let x = str_chars(a.as_str());
    let y = str_chars(b.as_str());
    seq_eq(&x, &y)
}

} // verus!

verus! {

// ---------------------------------------------------------------------
// Lines and character trimming
// ---------------------------------------------------------------------

/// Drops one trailing carriage return.
pub open spec fn strip_cr(p: Seq<char>) -> Seq<char> {
    if p.len() > 0 && p.last() == '\r' {
        p.drop_last()
    } else {
        p
    }
}

/// `str::lines`: pieces between `\n`s, each piece that ended with `\n`
/// losing one trailing `\r`, and no final empty piece.
pub open spec fn lines(s: Seq<char>) -> Seq<Seq<char>> {
    let pieces = split_char(s, '\n');
    let body = pieces.take(pieces.len() - 1).map_values(|p: Seq<char>| strip_cr(p));
    if pieces.last().len() == 0 {
        body
    } else {
        body.push(pieces.last())
    }
}

fn strip_cr_vec(p: &[char]) -> (v: Vec<char>)
    ensures
        v@ == strip_cr(p@),
{
    if p.len() > 0 && p[p.len() - 1] == '\r' {
        subrange_vec(p, 0, p.len() - 1)
    } else {
        chars_to_vec(p)
    }
}

/// Splits `s` into lines (`str::lines`).
pub fn lines_of(s: &[char]) -> (v: Vec<Vec<char>>)
    ensures
        views(v@) == lines(s@),
{
    let pieces = split_on(s, '\n');
    proof {
        lemma_split_char_nonempty(s@, '\n');
    }
    let n = pieces.len();
    let ghost ps = views(pieces@);
    let mut out: Vec<Vec<char>> = Vec::new();
    let mut i: usize = 0;
    while i + 1 < n
        invariant
            n == pieces.len(),
            n >= 1,
            ps == views(pieces@),
            i + 1 <= n,
            views(out@) == ps.take(i as int).map_values(|p: Seq<char>| strip_cr(p)),
        decreases n - i,
    {
        let line = strip_cr_vec(&pieces[i]);
        assert(ps[i as int] == pieces@[i as int]@);
        let ghost prev = views(out@);
        out.push(line);
        assert(views(out@) =~= prev.push(strip_cr(ps[i as int])));
        assert(ps.take(i + 1).map_values(|p: Seq<char>| strip_cr(p)) =~= ps.take(i as int).map_values(|p: Seq<char>| strip_cr(p)).push(strip_cr(ps[i as int])));
        i += 1;
        assert(views(out@) =~= ps.take(i as int).map_values(|p: Seq<char>| strip_cr(p)));
    }
    assert(i == n - 1);
    if pieces[n - 1].len() > 0 {
        let last = chars_to_vec(&pieces[n - 1]);
        out.push(last);
        assert(views(out@) =~= lines(s@));
    } else {
        assert(views(out@) =~= lines(s@));
    }
    out
}

/// Leading copies of `c` removed.
pub open spec fn strip_leading(s: Seq<char>, c: char) -> Seq<char>
    decreases s.len(),
{
    if s.len() > 0 && s[0] == c {
        strip_leading(s.drop_first(), c)
    } else {
        s
    }
}

/// Trailing copies of `c` removed.
pub open spec fn strip_trailing(s: Seq<char>, c: char) -> Seq<char>
    decreases s.len(),
{
    if s.len() > 0 && s.last() == c {
        strip_trailing(s.drop_last(), c)
    } else {
        s
    }
}

/// `str::trim_matches(c)` for a single character.
pub open spec fn trim_matches(s: Seq<char>, c: char) -> Seq<char> {
    strip_trailing(strip_leading(s, c), c)
}

pub fn trim_matches_vec(s: &[char], c: char) -> (v: Vec<char>)
    ensures
        v@ == trim_matches(s@, c),
{
    let mut a: usize = 0;
    assert(s@.skip(0) =~= s@);
    while a < s.len() && s[a] == c
        invariant
            a <= s.len(),
            strip_leading(s@, c) == strip_leading(s@.skip(a as int), c),
        decreases s.len() - a,
    {
        assert(s@.skip(a as int).drop_first() =~= s@.skip(a + 1));
        a += 1;
    }
    let mut b: usize = s.len();
    let ghost l = s@.skip(a as int);
    assert(l =~= s@.subrange(a as int, b as int));
    while b > a && s[b - 1] == c
        invariant
            a <= b <= s.len(),
            l == s@.skip(a as int),
            strip_trailing(l, c) == strip_trailing(s@.subrange(a as int, b as int), c),
        decreases b,
    {
        assert(s@.subrange(a as int, b as int).drop_last() =~= s@.subrange(a as int, b - 1));
        b -= 1;
    }
    subrange_vec(s, a, b)
}

/// Lower-cases the ASCII letters of `s`.
pub fn ascii_lower_vec(s: &[char]) -> (v: Vec<char>)
    ensures
        v@ == ascii_lower_seq(s@),
{
    let mut v: Vec<char> = Vec::new();
    let mut i: usize = 0;
    while i < s.len()
        invariant
            i <= s.len(),
            v@ == ascii_lower_seq(s@.take(i as int)),
        decreases s.len() - i,
    {
        v.push(to_ascii_lower(s[i]));
        i += 1;
        assert(v@ =~= ascii_lower_seq(s@.take(i as int)));
    }
    assert(s@.take(s.len() as int) =~= s@);
    v
}

} // verus!
