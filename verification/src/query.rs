//! Query-layer logic that does not touch the database: test-symbol
//! heuristics, symbol filters, list pagination and stored-number parsing.
use vstd::prelude::*;
use crate::text::{
    contains_lit, contains_sub, ends_with, ends_with_lit, replace_char, replace_char_vec,
    str_chars, string_from_chars,
};

verus! {

/// Scope id of the primary (local) workspace.
pub open spec fn primary_workspace_id() -> Seq<char> {
    "primary"@
}

pub fn primary_workspace_id_str() -> (s: &'static str)
    ensures
        s@ == primary_workspace_id(),
{
    "primary"
}

/// FQDN naming conventions of test code.
pub open spec fn fqdn_test_like(f: Seq<char>) -> bool {
    ||| contains_sub(f, "::tests::"@)
    ||| contains_sub(f, "::test::"@)
    ||| ends_with(f, "::tests"@)
    ||| ends_with(f, "::test"@)
    ||| ends_with(f, "_test"@)
    ||| ends_with(f, "_tests"@)
    ||| ends_with(f, ".test"@)
    ||| ends_with(f, ".spec"@)
}

/// File-path conventions of test code (after `\` → `/`).
pub open spec fn path_test_like(file: Seq<char>) -> bool {
    let n = replace_char(file, '\\', '/');
    ||| contains_sub(n, "/tests/"@)
    ||| contains_sub(n, "/test/"@)
    ||| contains_sub(n, "/__tests__/"@)
    ||| ends_with(n, "_test.rs"@)
    ||| ends_with(n, "_tests.rs"@)
    ||| ends_with(n, ".test.ts"@)
    ||| ends_with(n, ".test.tsx"@)
    ||| ends_with(n, ".test.js"@)
    ||| ends_with(n, ".test.jsx"@)
    ||| ends_with(n, ".spec.ts"@)
    ||| ends_with(n, ".spec.tsx"@)
    ||| ends_with(n, ".spec.js"@)
    ||| ends_with(n, ".spec.jsx"@)
}

pub fn fqdn_looks_like_test(fqdn: &str) -> (b: bool)
    ensures
        b == fqdn_test_like(fqdn@),
{
    let f = str_chars(fqdn);
    contains_lit(&f, "::tests::") || contains_lit(&f, "::test::") || ends_with_lit(&f, "::tests")
        || ends_with_lit(&f, "::test") || ends_with_lit(&f, "_test") || ends_with_lit(&f, "_tests")
        || ends_with_lit(&f, ".test") || ends_with_lit(&f, ".spec")
}

/// Coarse test-code heuristic on an FQDN alone (`::tests::` / `::test::`
/// modules, `_test` / `_tests` / `.test` / `.spec` endings).
pub fn fqdn_looks_like_test_only(fqdn: &str) -> (b: bool)
    ensures
        b == fqdn_test_like(fqdn@),
{
    fqdn_looks_like_test(fqdn)
}

pub fn file_path_looks_like_test(file: &str) -> (b: bool)
    ensures
        b == path_test_like(file@),
{
    let raw = str_chars(file);
    let n = replace_char_vec(&raw, '\\', '/');
    contains_lit(&n, "/tests/") || contains_lit(&n, "/test/") || contains_lit(&n, "/__tests__/")
        || ends_with_lit(&n, "_test.rs") || ends_with_lit(&n, "_tests.rs") || ends_with_lit(
        &n,
        ".test.ts",
    ) || ends_with_lit(&n, ".test.tsx") || ends_with_lit(&n, ".test.js") || ends_with_lit(
        &n,
        ".test.jsx",
    ) || ends_with_lit(&n, ".spec.ts") || ends_with_lit(&n, ".spec.tsx") || ends_with_lit(
        &n,
        ".spec.js",
    ) || ends_with_lit(&n, ".spec.jsx")
}

/// Test heuristic over a symbol's FQDN and its file path.
pub fn symbol_looks_like_test(fqdn: &str, file: &str) -> (b: bool)
    ensures
        b == (fqdn_test_like(fqdn@) || path_test_like(file@)),
{
    fqdn_looks_like_test(fqdn) || file_path_looks_like_test(file)
}

// ---------------------------------------------------------------------
// Stored unsigned numbers
// ---------------------------------------------------------------------

/// Decimal value of a digit string.
pub open spec fn decimal_value(s: Seq<char>) -> nat
    decreases s.len(),
{
    if s.len() == 0 {
        0
    } else {
        decimal_value(s.drop_last()) * 10 + ((s.last() as nat) - 48) as nat
    }
}

pub open spec fn all_digits(s: Seq<char>) -> bool {
    forall|j: int| 0 <= j < s.len() ==> '0' <= #[trigger] s[j] && s[j] <= '9'
}

/// The digits `u64::from_str` / `u32::from_str` read: an optional leading
/// `+`, then at least one ASCII digit and nothing else.
pub open spec fn unsigned_digits(s: Seq<char>) -> Option<Seq<char>> {
    let d = if s.len() > 0 && s[0] == '+' { s.drop_first() } else { s };
    if d.len() > 0 && all_digits(d) { Some(d) } else { None }
}

/// What `str::parse::<uN>` returns for a bound of `max`: the value when
/// the text is a well-formed number not above `max`.
pub open spec fn parse_unsigned(s: Seq<char>, max: nat) -> Option<nat> {
    match unsigned_digits(s) {
        Some(d) => if decimal_value(d) <= max { Some(decimal_value(d)) } else { None },
        None => None,
    }
}

proof fn lemma_decimal_monotone(s: Seq<char>, i: int)
    requires
        0 <= i <= s.len(),
        all_digits(s),
    ensures
        decimal_value(s.take(i)) <= decimal_value(s),
    decreases s.len(),
{
    if i < s.len() {
        assert(all_digits(s.drop_last()));
        assert(s.drop_last().take(i) =~= s.take(i));
        lemma_decimal_monotone(s.drop_last(), i);
    } else {
        assert(s.take(i) =~= s);
    }
}

fn parse_unsigned_exec(s: &[char], max: u64) -> (r: Option<u64>)
    requires
        max >= 9,
    ensures
        r matches Some(v) ==> parse_unsigned(s@, max as nat) == Some(v as nat),
        r is None ==> parse_unsigned(s@, max as nat) is None,
{
    let start: usize = if s.len() > 0 && s[0] == '+' { 1 } else { 0 };
    let ghost d = if s@.len() > 0 && s@[0] == '+' { s@.drop_first() } else { s@ };
    assert(d =~= s@.skip(start as int));
    if start >= s.len() {
        return None;
    }
    let mut acc: u64 = 0;
    let mut i: usize = start;
    assert(s@.subrange(start as int, start as int) =~= Seq::<char>::empty());
    while i < s.len()
        invariant
            start <= i <= s.len(),
            max >= 9,
            d == s@.skip(start as int),
            d == (if s@.len() > 0 && s@[0] == '+' { s@.drop_first() } else { s@ }),
            d.len() > 0,
            acc as nat == decimal_value(s@.subrange(start as int, i as int)),
            acc <= max,
            all_digits(s@.subrange(start as int, i as int)),
        decreases s.len() - i,
    {
        let c = s[i];
        if c < '0' || c > '9' {
            proof {
                assert(d[i - start] == c);
                assert(!('0' <= d[i - start] && d[i - start] <= '9'));
            }
            return None;
        }
        let digit: u64 = (c as u64) - 48;
        let ghost prefix = s@.subrange(start as int, i + 1);
        assert(prefix.drop_last() =~= s@.subrange(start as int, i as int));
        assert(all_digits(prefix));
        if acc > (max - digit) / 10 {
            proof {
                assert(acc * 10 + digit > max) by (nonlinear_arith)
                    requires
                        acc > (max - digit) / 10,
                        digit <= max,
                ;
                assert(prefix =~= d.take(i + 1 - start));
                assert(decimal_value(prefix) == acc * 10 + digit);
                if all_digits(d) {
                    lemma_decimal_monotone(d, i + 1 - start);
                }
            }
            return None;
        }
        assert(acc * 10 + digit <= max) by (nonlinear_arith)
            requires
                acc <= (max - digit) / 10,
                digit <= max,
        ;
        acc = acc * 10 + digit;
        i += 1;
    }
    assert(s@.subrange(start as int, s.len() as int) =~= d);
    Some(acc)
}

/// Error text of a stored schema version that is not a `u32`.
pub open spec fn schema_version_error(raw: Seq<char>) -> Seq<char> {
    "schema_meta.schema_version is not a u32: "@ + raw
}

/// Parses the stored `schema_meta.schema_version` value as `u32`; the
/// error carries the raw value.
pub fn schema_version(raw: &str) -> (r: Result<u32, String>)
    ensures
        match r {
            Ok(v) => parse_unsigned(raw@, u32::MAX as nat) == Some(v as nat),
            Err(e) => parse_unsigned(raw@, u32::MAX as nat) is None && e@ == schema_version_error(raw@),
        },
{
    let c = str_chars(raw);
    match parse_unsigned_exec(&c, u32::MAX as u64) {
        Some(v) => Ok(v as u32),
        None => {
            let mut out: Vec<char> = Vec::new();
            crate::text::append_str(&mut out, "schema_meta.schema_version is not a u32: ");
            crate::text::append_str(&mut out, raw);
            Err(string_from_chars(out))
        },
    }
}

/// Parses a stored `schema_meta` value as `u64` (`watcher_debounce_ms`,
/// `revision`).
pub fn parse_u64(raw: &str) -> (r: Option<u64>)
    ensures
        r matches Some(v) ==> parse_unsigned(raw@, u64::MAX as nat) == Some(v as nat),
        r is None ==> parse_unsigned(raw@, u64::MAX as nat) is None,
{
    let c = str_chars(raw);
    parse_unsigned_exec(&c, u64::MAX)
}

// ---------------------------------------------------------------------
// Symbol filters and listing pages
// ---------------------------------------------------------------------

/// Symbol-shape filters shared by text search, listing, pattern search
/// and similarity search. `None` leaves a column unconstrained; `kind`
/// and `visibility` hold their stored text. `include_external` lets
/// external (dependency) symbols take part; `workspace_id` scopes the
/// query to one workspace, the primary one when `None`.
#[derive(Debug, Clone, PartialEq, Eq)]
pub struct SymbolFilter {
    pub kind: Option<String>,
    pub visibility: Option<String>,
    pub module: Option<String>,
    pub include_external: bool,
    pub workspace_id: Option<String>,
}

impl Default for SymbolFilter {
    fn default() -> (f: Self)
        ensures
            f.kind is None,
            f.visibility is None,
            f.module is None,
            f.include_external,
            f.workspace_id is None,
    {
        SymbolFilter {
            kind: None,
            visibility: None,
            module: None,
            include_external: true,
            workspace_id: None,
        }
    }
}

impl SymbolFilter {
    /// The workspace the query runs in: the given one, else the primary.
    pub fn effective_workspace_id(&self) -> (w: &str)
        ensures
            w@ == match self.workspace_id {
                Some(id) => id@,
                None => primary_workspace_id(),
            },
    {
        match &self.workspace_id {
            Some(id) => id.as_str(),
            None => primary_workspace_id_str(),
        }
    }
}

/// A `LIMIT` bound as SQLite takes it: the count, capped at `i64::MAX`.
pub fn sql_limit(limit: usize) -> (l: i64)
    ensures
        l as int == if limit as int > i64::MAX as int { i64::MAX as int } else { limit as int },
{
    if limit as u128 > i64::MAX as u128 {
        i64::MAX
    } else {
        limit as i64
    }
}

/// The cursor of a listing page: the last FQDN of a page that filled up
/// to `limit`; `None` when the page is short or empty (the walk is done).
pub fn next_cursor(page_fqdns: &Vec<String>, limit: usize) -> (c: Option<String>)
    ensures
        match c {
            Some(f) => page_fqdns.len() == limit && limit > 0 && f@ == page_fqdns@.last()@,
            None => page_fqdns.len() != limit || page_fqdns.len() == 0,
        },
{
    if page_fqdns.len() == limit && page_fqdns.len() > 0 {
        Some(page_fqdns[page_fqdns.len() - 1].clone())
    } else {
        None
    }
}

/// The match expression of the first text-search pass: the sanitized
/// query, or `None` (no search at all) when nothing is left of it.
pub fn search_first_pass(query: &str) -> (r: Option<String>)
    ensures
        match r {
            Some(m) => m@ == crate::fts::sanitized(query@) && m@.len() > 0,
            None => crate::fts::sanitized(query@).len() == 0,
        },
{
    let s = crate::fts::sanitize_fts5_query(query);
    if s.as_str().is_empty() {
        None
    } else {
        Some(s)
    }
}

/// The match expression of the second, broadened pass: asked only when
/// the first pass found nothing, and only for a query of two or more
/// tokens (their `OR`).
pub fn search_second_pass(sanitized: &str, first_pass_hits: usize) -> (r: Option<String>)
    ensures
        first_pass_hits > 0 ==> r is None,
        first_pass_hits == 0 ==> match r {
            Some(m) => crate::fts::or_fallback(sanitized@) == Some(m@),
            None => crate::fts::or_fallback(sanitized@) is None,
        },
{
    if first_pass_hits > 0 {
        None
    } else {
        crate::fts::or_fallback_expr(sanitized)
    }
}

// ---------------------------------------------------------------------
// Symbol under a cursor
// ---------------------------------------------------------------------

/// Source range of a candidate symbol (lines and columns inclusive).
#[derive(Debug, Clone, Copy, PartialEq, Eq)]
pub struct SymbolSpan {
    pub start_line: u32,
    pub start_col: u32,
    pub end_line: u32,
    pub end_col: u32,
}

/// Whether `(line, col)` falls inside the span.
pub open spec fn span_contains(s: SymbolSpan, line: u32, col: u32) -> bool {
    &&& s.start_line <= line <= s.end_line
    &&& (s.start_line < line || s.start_col <= col)
    &&& (s.end_line > line || s.end_col >= col)
}

/// Size of a span as the index orders it: lines weigh a thousand columns.
pub open spec fn span_size(s: SymbolSpan) -> int {
    (s.end_line - s.start_line) * 1000 + (s.end_col - s.start_col)
}

fn span_size_exec(s: &SymbolSpan) -> (k: i64)
    ensures
        k as int == span_size(*s),
{
    let lines: i64 = s.end_line as i64 - s.start_line as i64;
    let cols: i64 = s.end_col as i64 - s.start_col as i64;
    lines * 1000 + cols
}

/// The symbol under a cursor: among the spans that contain `(line, col)`,
/// the smallest (the most deeply nested); the first of equal ones.
pub fn symbol_at_position(spans: &Vec<SymbolSpan>, line: u32, col: u32) -> (r: Option<usize>)
    ensures
        match r {
            Some(i) => {
                &&& i < spans.len()
                &&& span_contains(spans@[i as int], line, col)
                &&& forall|j: int|
                    0 <= j < spans.len() && span_contains(#[trigger] spans@[j], line, col)
                        ==> span_size(spans@[i as int]) <= span_size(spans@[j])
                &&& forall|j: int|
                    0 <= j < i && span_contains(#[trigger] spans@[j], line, col)
                        ==> span_size(spans@[i as int]) < span_size(spans@[j])
            },
            None => forall|j: int| 0 <= j < spans.len() ==> !span_contains(#[trigger] spans@[j], line, col),
        },
{
    let mut best: Option<usize> = None;
    let mut best_size: i64 = 0;
    let mut i: usize = 0;
    while i < spans.len()
        invariant
            i <= spans.len(),
            match best {
                Some(b) => {
                    &&& b < i
                    &&& span_contains(spans@[b as int], line, col)
                    &&& best_size as int == span_size(spans@[b as int])
                    &&& forall|j: int|
                        0 <= j < i && span_contains(#[trigger] spans@[j], line, col)
                            ==> best_size <= span_size(spans@[j])
                    &&& forall|j: int|
                        0 <= j < b && span_contains(#[trigger] spans@[j], line, col)
                            ==> best_size < span_size(spans@[j])
                },
                None => forall|j: int| 0 <= j < i ==> !span_contains(#[trigger] spans@[j], line, col),
            },
        decreases spans.len() - i,
    {
        let s = spans[i];
        let inside = s.start_line <= line && line <= s.end_line && (s.start_line < line
            || s.start_col <= col) && (s.end_line > line || s.end_col >= col);
        if inside {
            let k = span_size_exec(&s);
            match best {
                None => {
                    best = Some(i);
                    best_size = k;
                },
                Some(_) => {
                    if k < best_size {
                        best = Some(i);
                        best_size = k;
                    }
                },
            }
        }
        i += 1;
    }
    best
}

// ---------------------------------------------------------------------
// Revision lookups
// ---------------------------------------------------------------------

/// `?2,?3,…,?{n+1}`: one numbered SQL placeholder per FQDN, after the
/// workspace id's `?1`.
pub open spec fn placeholders(n: nat) -> Seq<char>
    decreases n,
{
    if n == 0 {
        Seq::empty()
    } else if n == 1 {
        "?2"@
    } else {
        placeholders((n - 1) as nat) + ","@ + "?"@ + crate::ingest::decimal(n + 1)
    }
}

/// The placeholder list of a revision lookup over `n` FQDNs.
pub fn revision_placeholders(n: usize) -> (s: String)
    requires
        n < usize::MAX,
    ensures
        s@ == placeholders(n as nat),
{
    let mut out: Vec<char> = Vec::new();
    let mut i: usize = 0;
    proof {
        reveal_strlit("?2");
    }
    while i < n
        invariant
            i <= n,
            n < usize::MAX,
            out@ == placeholders(i as nat),
        decreases n - i,
    {
        if i > 0 {
            out.push(',');
        }
        out.push('?');
        let d = crate::ingest::decimal_text((i + 2) as u128);
        let ghost before = out@;
        crate::text::push_all(&mut out, &d);
        proof {
            reveal_strlit(",");
            reveal_strlit("?");
            reveal_strlit("?2");
            if i == 0 {
                assert(crate::ingest::decimal(2) =~= seq!['2']);
                assert(out@ =~= "?2"@);
            } else {
                assert(out@ =~= placeholders(i as nat) + ","@ + "?"@ + crate::ingest::decimal(
                    (i + 2) as nat,
                ));
            }
        }
        i += 1;
    }
    string_from_chars(out)
}

/// A stored revision as an unsigned number: negative values read as 0.
pub fn stored_revision(rev: i64) -> (r: u64)
    ensures
        r as int == if rev < 0 { 0 } else { rev as int },
{
    if rev < 0 {
        0
    } else {
        rev as u64
    }
}

} // verus!
