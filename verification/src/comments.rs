//! Inline comment stripping for C-like source bodies.
//!
//! `//` comments are dropped up to the end of their line and `/* … */`
//! comments (nested) up to their closing `*/`, keeping every newline so
//! line numbers stay aligned. Double-quoted strings (with `\` escapes),
//! Rust raw strings (`r"…"`, `r#"…"#`, …) and template literals
//! (`` `…` ``) are copied verbatim. Only ASCII characters drive the
//! scanner, so walking characters is the same as walking bytes.
use vstd::prelude::*;

verus! {

/// Where the scanner stands.
#[derive(PartialEq, Eq, Structural, Clone, Copy, Debug)]
pub enum Lexeme {
    Code,
    LineComment,
    BlockComment,
    DqString,
    Template,
    RawString,
}

/// `s[k] == c`, with `k` in bounds.
pub open spec fn char_at(s: Seq<char>, k: int, c: char) -> bool {
    0 <= k < s.len() && s[k] == c
}

/// Number of consecutive `#` starting at `j`.
pub open spec fn hash_run(s: Seq<char>, j: int) -> nat
    decreases s.len() - j,
{
    if 0 <= j < s.len() && s[j] == '#' {
        1 + hash_run(s, j + 1)
    } else {
        0
    }
}

/// `s[j..j + n]` is in bounds and made of `#` only.
pub open spec fn hashes_at(s: Seq<char>, j: int, n: nat) -> bool {
    0 <= j && j + n <= s.len() && forall|k: int| j <= k < j + n ==> #[trigger] s[k] == '#'
}

/// What the scanner emits from position `i` on, in state `m`, with
/// `depth` open block comments and `hashes` the `#` count of the raw
/// string being read.
pub open spec fn strip_from(s: Seq<char>, i: int, m: Lexeme, depth: nat, hashes: nat) -> Seq<char>
    decreases s.len() - i,
{
    if i < 0 || i >= s.len() {
        Seq::empty()
    } else {
        let b = s[i];
        match m {
            Lexeme::Code => {
                let h = hash_run(s, i + 1);
                if b == 'r' && char_at(s, i + 1 + h, '"') {
                    s.subrange(i, i + 2 + h) + strip_from(s, i + 2 + h, Lexeme::RawString, depth, h)
                } else if b == '/' && char_at(s, i + 1, '/') {
                    strip_from(s, i + 2, Lexeme::LineComment, depth, hashes)
                } else if b == '/' && char_at(s, i + 1, '*') {
                    strip_from(s, i + 2, Lexeme::BlockComment, 1, hashes)
                } else if b == '"' {
                    seq![b] + strip_from(s, i + 1, Lexeme::DqString, depth, hashes)
                } else if b == '`' {
                    seq![b] + strip_from(s, i + 1, Lexeme::Template, depth, hashes)
                } else {
                    seq![b] + strip_from(s, i + 1, Lexeme::Code, depth, hashes)
                }
            },
            Lexeme::LineComment => {
                if b == '\n' {
                    seq![b] + strip_from(s, i + 1, Lexeme::Code, depth, hashes)
                } else {
                    strip_from(s, i + 1, Lexeme::LineComment, depth, hashes)
                }
            },
            Lexeme::BlockComment => {
                if b == '/' && char_at(s, i + 1, '*') {
                    strip_from(s, i + 2, Lexeme::BlockComment, depth + 1, hashes)
                } else if b == '*' && char_at(s, i + 1, '/') {
                    if depth <= 1 {
                        strip_from(s, i + 2, Lexeme::Code, depth, hashes)
                    } else {
                        strip_from(s, i + 2, Lexeme::BlockComment, (depth - 1) as nat, hashes)
                    }
                } else if b == '\n' {
                    seq![b] + strip_from(s, i + 1, Lexeme::BlockComment, depth, hashes)
                } else {
                    strip_from(s, i + 1, Lexeme::BlockComment, depth, hashes)
                }
            },
            Lexeme::DqString => {
                if b == '\\' && i + 1 < s.len() {
                    s.subrange(i, i + 2) + strip_from(s, i + 2, Lexeme::DqString, depth, hashes)
                } else if b == '"' {
                    seq![b] + strip_from(s, i + 1, Lexeme::Code, depth, hashes)
                } else {
                    seq![b] + strip_from(s, i + 1, Lexeme::DqString, depth, hashes)
                }
            },
            Lexeme::Template => {
                if b == '\\' && i + 1 < s.len() {
                    s.subrange(i, i + 2) + strip_from(s, i + 2, Lexeme::Template, depth, hashes)
                } else if b == '`' {
                    seq![b] + strip_from(s, i + 1, Lexeme::Code, depth, hashes)
                } else {
                    seq![b] + strip_from(s, i + 1, Lexeme::Template, depth, hashes)
                }
            },
            Lexeme::RawString => {
                if b == '"' && hashes_at(s, i + 1, hashes) {
                    s.subrange(i, i + 1 + hashes) + strip_from(
                        s,
                        i + 1 + hashes,
                        Lexeme::Code,
                        depth,
                        hashes,
                    )
                } else {
                    seq![b] + strip_from(s, i + 1, Lexeme::RawString, depth, hashes)
                }
            },
        }
    }
}

/// The body with its inline comments removed.
pub open spec fn stripped_comments(s: Seq<char>) -> Seq<char> {
    strip_from(s, 0, Lexeme::Code, 0, 0)
}

proof fn lemma_hash_run(s: Seq<char>, j: int, k: int)
    requires
        0 <= j <= k <= s.len(),
        forall|x: int| j <= x < k ==> #[trigger] s[x] == '#',
        k == s.len() || s[k] != '#',
    ensures
        hash_run(s, j) == k - j,
    decreases k - j,
{
    if j < k {
        lemma_hash_run(s, j + 1, k);
    }
}

/// Counts the `#` run starting at `j`.
fn count_hashes(s: &[char], j: usize) -> (n: usize)
    requires
        j <= s.len(),
    ensures
        n == hash_run(s@, j as int),
        j + n <= s.len(),
{
    let mut k: usize = j;
    while k < s.len() && s[k] == '#'
        invariant
            j <= k <= s.len(),
            forall|x: int| j <= x < k ==> #[trigger] s@[x] == '#',
        decreases s.len() - k,
    {
        k += 1;
    }
    proof {
        lemma_hash_run(s@, j as int, k as int);
    }
    k - j
}

/// `s[j..j + n]` is in bounds and all `#`.
fn hashes_follow(s: &[char], j: usize, n: usize) -> (b: bool)
    ensures
        b == hashes_at(s@, j as int, n as nat),
{
    if j > s.len() || n > s.len() - j {
        return false;
    }
    let mut k: usize = 0;
    while k < n
        invariant
            j + n <= s.len(),
            k <= n,
            forall|x: int| j <= x < j + k ==> #[trigger] s@[x] == '#',
        decreases n - k,
    {
        if s[j + k] != '#' {
            return false;
        }
        k += 1;
    }
    true
}

/// Removes `//` and `/* … */` comments from `body`, leaving string
/// literals, raw strings and template literals untouched and keeping
/// every newline.
pub fn strip_inline_comments_in_body(body: &str) -> (out: String)
    ensures
        out@ == stripped_comments(body@),
{
    let s = crate::text::str_chars(body);
    let v = strip_inline_comments_chars(&s);
    crate::text::string_from_chars(v)
}

/// [`strip_inline_comments_in_body`] over characters.
pub fn strip_inline_comments_chars(s: &[char]) -> (out: Vec<char>)
    ensures
        out@ == stripped_comments(s@),
{
    let mut out: Vec<char> = Vec::new();
    let mut m = Lexeme::Code;
    let mut depth: usize = 0;
    let mut hashes: usize = 0;
    let mut i: usize = 0;
    let n = s.len();
    while i < n
        invariant
            n == s.len(),
            i <= n,
            depth <= i,
            hashes <= i,
            out@ + strip_from(s@, i as int, m, depth as nat, hashes as nat) == stripped_comments(s@),
        decreases n - i,
    {
        let b = s[i];
        let ghost before = strip_from(s@, i as int, m, depth as nat, hashes as nat);
        match m {
            Lexeme::Code => {
                if b == 'r' {
                    let h = count_hashes(s, i + 1);
                    let j = i + 1 + h;
                    if j < n && s[j] == '"' {
                        let piece = crate::text::subrange_vec(s, i, j + 1);
                        crate::text::push_all(&mut out, &piece);
                        m = Lexeme::RawString;
                        hashes = h;
                        i = j + 1;
                        assert(before == piece@ + strip_from(s@, i as int, m, depth as nat, hashes as nat));
                        continue;
                    }
                }
                if b == '/' && i + 1 < n && s[i + 1] == '/' {
                    m = Lexeme::LineComment;
                    i += 2;
                    continue;
                }
                if b == '/' && i + 1 < n && s[i + 1] == '*' {
                    m = Lexeme::BlockComment;
                    depth = 1;
                    i += 2;
                    continue;
                }
                if b == '"' {
                    m = Lexeme::DqString;
                } else if b == '`' {
                    m = Lexeme::Template;
                }
                out.push(b);
                i += 1;
            },
            Lexeme::LineComment => {
                if b == '\n' {
                    out.push(b);
                    m = Lexeme::Code;
                }
                i += 1;
            },
            Lexeme::BlockComment => {
                if b == '/' && i + 1 < n && s[i + 1] == '*' {
                    depth += 1;
                    i += 2;
                    continue;
                }
                if b == '*' && i + 1 < n && s[i + 1] == '/' {
                    if depth <= 1 {
                        m = Lexeme::Code;
                    } else {
                        depth -= 1;
                    }
                    i += 2;
                    continue;
                }
                if b == '\n' {
                    out.push(b);
                }
                i += 1;
            },
            Lexeme::DqString => {
                if b == '\\' && i + 1 < n {
                    out.push(b);
                    out.push(s[i + 1]);
                    assert(before == s@.subrange(i as int, i + 2) + strip_from(s@, i + 2, m, depth as nat, hashes as nat));
                    i += 2;
                    continue;
                }
                if b == '"' {
                    m = Lexeme::Code;
                }
                out.push(b);
                i += 1;
            },
            Lexeme::Template => {
                if b == '\\' && i + 1 < n {
                    out.push(b);
                    out.push(s[i + 1]);
                    assert(before == s@.subrange(i as int, i + 2) + strip_from(s@, i + 2, m, depth as nat, hashes as nat));
                    i += 2;
                    continue;
                }
                if b == '`' {
                    m = Lexeme::Code;
                }
                out.push(b);
                i += 1;
            },
            Lexeme::RawString => {
                if b == '"' && hashes_follow(s, i + 1, hashes) {
                    let end = i + 1 + hashes;
                    let piece = crate::text::subrange_vec(s, i, end);
                    crate::text::push_all(&mut out, &piece);
                    assert(before == piece@ + strip_from(s@, end as int, Lexeme::Code, depth as nat, hashes as nat));
                    m = Lexeme::Code;
                    i = end;
                    continue;
                }
                out.push(b);
                i += 1;
            },
        }
    }
    out
}

// ---------------------------------------------------------------------
// Laws
// ---------------------------------------------------------------------

/// Number of occurrences of `c` in `s`.
pub open spec fn count_of(s: Seq<char>, c: char) -> nat
    decreases s.len(),
{
    if s.len() == 0 {
        0
    } else {
        (if s[0] == c {
            1nat
        } else {
            0nat
        }) + count_of(s.drop_first(), c)
    }
}

pub proof fn lemma_count_of_add(a: Seq<char>, b: Seq<char>, c: char)
    ensures
        count_of(a + b, c) == count_of(a, c) + count_of(b, c),
    decreases a.len(),
{
    if a.len() > 0 {
        lemma_count_of_add(a.drop_first(), b, c);
        assert((a + b).drop_first() =~= a.drop_first() + b);
        assert((a + b)[0] == a[0]);
    } else {
        assert(a + b =~= b);
    }
}

proof fn lemma_count_of_pair(x: char, y: char, c: char)
    ensures
        count_of(seq![x, y], c) == (if x == c { 1nat } else { 0nat }) + (if y == c { 1nat } else { 0nat }),
{
    assert(seq![x, y].drop_first() =~= seq![y]);
    lemma_count_of_one(y, c);
}

proof fn lemma_count_of_one(x: char, c: char)
    ensures
        count_of(seq![x], c) == (if x == c { 1nat } else { 0nat }),
{
    assert(seq![x].drop_first() =~= Seq::<char>::empty());
    assert(count_of(Seq::<char>::empty(), c) == 0);
}

/// The part of `s` from `i` splits at `j`.
proof fn lemma_skip_split(s: Seq<char>, i: int, j: int)
    requires
        0 <= i <= j <= s.len(),
    ensures
        s.skip(i) == s.subrange(i, j) + s.skip(j),
{
    assert(s.skip(i) =~= s.subrange(i, j) + s.skip(j));
}

/// Every newline of the text from `i` on is emitted exactly once, and
/// nothing else is added: the output is never longer than the input.
proof fn lemma_strip_from_newlines(s: Seq<char>, i: int, m: Lexeme, depth: nat, hashes: nat)
    requires
        0 <= i <= s.len(),
    ensures
        count_of(strip_from(s, i, m, depth, hashes), '\n') == count_of(s.skip(i), '\n'),
        strip_from(s, i, m, depth, hashes).len() <= s.len() - i,
    decreases s.len() - i,
{
    let nl = '\n';
    if i == s.len() {
        assert(s.skip(i) =~= Seq::<char>::empty());
    } else {
        let b = s[i];
        assert(s.subrange(i, i + 1) =~= seq![b]);
        lemma_count_of_one(b, nl);
        match m {
            Lexeme::Code => {
                let h = hash_run(s, i + 1);
                if b == 'r' && char_at(s, i + 1 + h, '"') {
                    lemma_strip_from_newlines(s, i + 2 + h, Lexeme::RawString, depth, h);
                    lemma_skip_split(s, i, i + 2 + h);
                    lemma_count_of_add(s.subrange(i, i + 2 + h), s.skip(i + 2 + h), nl);
                    lemma_count_of_add(s.subrange(i, i + 2 + h), strip_from(s, i + 2 + h, Lexeme::RawString, depth, h), nl);
                } else if b == '/' && char_at(s, i + 1, '/') {
                    lemma_strip_from_newlines(s, i + 2, Lexeme::LineComment, depth, hashes);
                    lemma_skip_split(s, i, i + 2);
                    assert(s.subrange(i, i + 2) =~= seq![b, s[i + 1]]);
                    lemma_count_of_pair(b, s[i + 1], nl);
                    lemma_count_of_add(s.subrange(i, i + 2), s.skip(i + 2), nl);
                } else if b == '/' && char_at(s, i + 1, '*') {
                    lemma_strip_from_newlines(s, i + 2, Lexeme::BlockComment, 1, hashes);
                    lemma_skip_split(s, i, i + 2);
                    assert(s.subrange(i, i + 2) =~= seq![b, s[i + 1]]);
                    lemma_count_of_pair(b, s[i + 1], nl);
                    lemma_count_of_add(s.subrange(i, i + 2), s.skip(i + 2), nl);
                } else {
                    let m2 = if b == '"' {
                        Lexeme::DqString
                    } else if b == '`' {
                        Lexeme::Template
                    } else {
                        Lexeme::Code
                    };
                    lemma_strip_from_newlines(s, i + 1, m2, depth, hashes);
                    lemma_skip_split(s, i, i + 1);
                    lemma_count_of_add(seq![b], s.skip(i + 1), nl);
                    lemma_count_of_add(seq![b], strip_from(s, i + 1, m2, depth, hashes), nl);
                }
            },
            Lexeme::LineComment => {
                lemma_strip_from_newlines(s, i + 1, if b == nl { Lexeme::Code } else { Lexeme::LineComment }, depth, hashes);
                lemma_skip_split(s, i, i + 1);
                lemma_count_of_add(seq![b], s.skip(i + 1), nl);
                if b == nl {
                    lemma_count_of_add(seq![b], strip_from(s, i + 1, Lexeme::Code, depth, hashes), nl);
                }
            },
            Lexeme::BlockComment => {
                if b == '/' && char_at(s, i + 1, '*') {
                    lemma_strip_from_newlines(s, i + 2, Lexeme::BlockComment, depth + 1, hashes);
                    lemma_skip_split(s, i, i + 2);
                    assert(s.subrange(i, i + 2) =~= seq![b, s[i + 1]]);
                    lemma_count_of_pair(b, s[i + 1], nl);
                    lemma_count_of_add(s.subrange(i, i + 2), s.skip(i + 2), nl);
                } else if b == '*' && char_at(s, i + 1, '/') {
                    let m2 = if depth <= 1 { Lexeme::Code } else { Lexeme::BlockComment };
                    let d2: nat = if depth <= 1 { depth } else { (depth - 1) as nat };
                    lemma_strip_from_newlines(s, i + 2, m2, d2, hashes);
                    lemma_skip_split(s, i, i + 2);
                    assert(s.subrange(i, i + 2) =~= seq![b, s[i + 1]]);
                    lemma_count_of_pair(b, s[i + 1], nl);
                    lemma_count_of_add(s.subrange(i, i + 2), s.skip(i + 2), nl);
                } else {
                    lemma_strip_from_newlines(s, i + 1, Lexeme::BlockComment, depth, hashes);
                    lemma_skip_split(s, i, i + 1);
                    lemma_count_of_add(seq![b], s.skip(i + 1), nl);
                    if b == nl {
                        lemma_count_of_add(seq![b], strip_from(s, i + 1, Lexeme::BlockComment, depth, hashes), nl);
                    }
                }
            },
            Lexeme::DqString | Lexeme::Template => {
                if b == '\\' && i + 1 < s.len() {
                    lemma_strip_from_newlines(s, i + 2, m, depth, hashes);
                    lemma_skip_split(s, i, i + 2);
                    lemma_count_of_add(s.subrange(i, i + 2), s.skip(i + 2), nl);
                    lemma_count_of_add(s.subrange(i, i + 2), strip_from(s, i + 2, m, depth, hashes), nl);
                } else {
                    let close = if m == Lexeme::DqString { '"' } else { '`' };
                    let m2 = if b == close { Lexeme::Code } else { m };
                    lemma_strip_from_newlines(s, i + 1, m2, depth, hashes);
                    lemma_skip_split(s, i, i + 1);
                    lemma_count_of_add(seq![b], s.skip(i + 1), nl);
                    lemma_count_of_add(seq![b], strip_from(s, i + 1, m2, depth, hashes), nl);
                }
            },
            Lexeme::RawString => {
                if b == '"' && hashes_at(s, i + 1, hashes) {
                    lemma_strip_from_newlines(s, i + 1 + hashes, Lexeme::Code, depth, hashes);
                    lemma_skip_split(s, i, i + 1 + hashes);
                    lemma_count_of_add(s.subrange(i, i + 1 + hashes), s.skip(i + 1 + hashes), nl);
                    lemma_count_of_add(s.subrange(i, i + 1 + hashes), strip_from(s, i + 1 + hashes, Lexeme::Code, depth, hashes), nl);
                } else {
                    lemma_strip_from_newlines(s, i + 1, Lexeme::RawString, depth, hashes);
                    lemma_skip_split(s, i, i + 1);
                    lemma_count_of_add(seq![b], s.skip(i + 1), nl);
                    lemma_count_of_add(seq![b], strip_from(s, i + 1, Lexeme::RawString, depth, hashes), nl);
                }
            },
        }
    }
}

/// Stripping comments keeps every line: the output has exactly as many
/// newlines as the input, and is never longer.
pub proof fn lemma_strip_keeps_line_count(body: Seq<char>)
    ensures
        count_of(stripped_comments(body), '\n') == count_of(body, '\n'),
        stripped_comments(body).len() <= body.len(),
{
    lemma_strip_from_newlines(body, 0, Lexeme::Code, 0, 0);
    assert(body.skip(0) =~= body);
}

/// Outside comments, a text without `/` is copied unchanged.
proof fn lemma_strip_from_no_slash(s: Seq<char>, i: int, m: Lexeme, depth: nat, hashes: nat)
    requires
        0 <= i <= s.len(),
        m != Lexeme::LineComment,
        m != Lexeme::BlockComment,
        forall|k: int| i <= k < s.len() ==> #[trigger] s[k] != '/',
    ensures
        strip_from(s, i, m, depth, hashes) == s.skip(i),
    decreases s.len() - i,
{
    if i == s.len() {
        assert(s.skip(i) =~= Seq::<char>::empty());
    } else {
        let b = s[i];
        assert(b != '/');
        match m {
            Lexeme::Code => {
                let h = hash_run(s, i + 1);
                if b == 'r' && char_at(s, i + 1 + h, '"') {
                    lemma_strip_from_no_slash(s, i + 2 + h, Lexeme::RawString, depth, h);
                    lemma_skip_split(s, i, i + 2 + h);
                } else {
                    let m2 = if b == '"' {
                        Lexeme::DqString
                    } else if b == '`' {
                        Lexeme::Template
                    } else {
                        Lexeme::Code
                    };
                    lemma_strip_from_no_slash(s, i + 1, m2, depth, hashes);
                    lemma_skip_split(s, i, i + 1);
                    assert(s.subrange(i, i + 1) =~= seq![b]);
                }
            },
            Lexeme::DqString | Lexeme::Template => {
                if b == '\\' && i + 1 < s.len() {
                    lemma_strip_from_no_slash(s, i + 2, m, depth, hashes);
                    lemma_skip_split(s, i, i + 2);
                } else {
                    let close = if m == Lexeme::DqString { '"' } else { '`' };
                    let m2 = if b == close { Lexeme::Code } else { m };
                    lemma_strip_from_no_slash(s, i + 1, m2, depth, hashes);
                    lemma_skip_split(s, i, i + 1);
                    assert(s.subrange(i, i + 1) =~= seq![b]);
                }
            },
            Lexeme::RawString => {
                if b == '"' && hashes_at(s, i + 1, hashes) {
                    lemma_strip_from_no_slash(s, i + 1 + hashes, Lexeme::Code, depth, hashes);
                    lemma_skip_split(s, i, i + 1 + hashes);
                } else {
                    lemma_strip_from_no_slash(s, i + 1, Lexeme::RawString, depth, hashes);
                    lemma_skip_split(s, i, i + 1);
                    assert(s.subrange(i, i + 1) =~= seq![b]);
                }
            },
            _ => {},
        }
    }
}

/// A body with no `/` at all has no comment to strip: it comes back
/// unchanged.
pub proof fn lemma_strip_without_slash_is_identity(body: Seq<char>)
    requires
        !body.contains('/'),
    ensures
        stripped_comments(body) == body,
{
    assert forall|k: int| 0 <= k < body.len() implies #[trigger] body[k] != '/' by {
        if body[k] == '/' {
            assert(body.contains('/'));
        }
    }
    lemma_strip_from_no_slash(body, 0, Lexeme::Code, 0, 0);
    assert(body.skip(0) =~= body);
}

} // verus!
