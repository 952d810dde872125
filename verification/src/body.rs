//! Source-body compaction for symbol bodies served over the wire:
//! leading-noise detection (doc comments, attributes), indentation
//! compaction (dedent + tab conversion) and blank-line collapsing.
use vstd::prelude::*;
use crate::text::{
    all_ws, contains_lit, contains_sub, is_blank, starts_with, starts_with_lit, str_chars,
    trim_start, trim_start_vec, views, join_with, split_char,
};

verus! {

// ---------------------------------------------------------------------
// Leading noise
// ---------------------------------------------------------------------

/// Net bracket depth change of a line: `(` and `[` open, `)` and `]` close.
pub open spec fn bracket_delta(s: Seq<char>) -> int
    decreases s.len(),
{
    if s.len() == 0 {
        0
    } else {
        bracket_delta(s.drop_last()) + (if s.last() == '(' || s.last() == '[' {
            1int
        } else if s.last() == ')' || s.last() == ']' {
            -1int
        } else {
            0int
        })
    }
}

pub proof fn lemma_bracket_delta_bound(s: Seq<char>)
    ensures
        -(s.len() as int) <= bracket_delta(s) <= s.len(),
    decreases s.len(),
{
    if s.len() > 0 {
        lemma_bracket_delta_bound(s.drop_last());
    }
}

/// Net bracket depth change of `line`.
pub fn paren_depth_delta(line: &[char]) -> (d: i64)
    requires
        line.len() < 0x8000_0000,
    ensures
        d == bracket_delta(line@),
{
    let mut d: i64 = 0;
    let mut i: usize = 0;
    while i < line.len()
        invariant
            i <= line.len() < 0x8000_0000,
            d == bracket_delta(line@.take(i as int)),
            -(i as int) <= d <= i,
        decreases line.len() - i,
    {
        let c = line[i];
        assert(line@.take(i + 1).drop_last() =~= line@.take(i as int));
        if c == '(' || c == '[' {
            d = d + 1;
        } else if c == ')' || c == ']' {
            d = d - 1;
        }
        i += 1;
    }
    assert(line@.take(line.len() as int) =~= line@);
    d
}

pub open spec fn doc_comment_line(l: Seq<char>) -> bool {
    starts_with(l, "///"@) || starts_with(l, "//!"@) || starts_with(l, "//"@)
}

pub open spec fn block_comment_open(l: Seq<char>) -> bool {
    starts_with(l, "/**"@) || starts_with(l, "/*"@)
}

pub open spec fn attribute_open(l: Seq<char>) -> bool {
    starts_with(l, "#["@) || starts_with(l, "#!["@)
}

pub open spec fn block_continuation(l: Seq<char>) -> bool {
    starts_with(l, "*"@) && !starts_with(l, "*/"@)
}

/// Number of leading noise lines of `ls`, scanning with the given
/// bracket depth and block-comment state.
pub open spec fn noise_lines(ls: Seq<Seq<char>>, depth: int, in_block: bool) -> nat
    decreases ls.len(),
{
    if ls.len() == 0 {
        0
    } else {
        let raw = ls[0];
        let line = trim_start(raw);
        let rest = ls.drop_first();
        if in_block {
            1 + noise_lines(rest, depth, !contains_sub(line, "*/"@))
        } else if depth > 0 {
            1 + noise_lines(rest, depth + bracket_delta(raw), false)
        } else if line.len() == 0 || doc_comment_line(line) {
            1 + noise_lines(rest, depth, false)
        } else if block_comment_open(line) {
            1 + noise_lines(rest, depth, !contains_sub(line, "*/"@))
        } else if attribute_open(line) {
            1 + noise_lines(rest, depth + bracket_delta(raw), false)
        } else if block_continuation(line) {
            1 + noise_lines(rest, depth, false)
        } else {
            0
        }
    }
}

pub open spec fn str_views(s: Seq<&str>) -> Seq<Seq<char>> {
    s.map_values(|x: &str| x@)
}

pub open spec fn short_lines(ls: Seq<Seq<char>>) -> bool {
    &&& ls.len() < 0x8000_0000
    &&& forall|i: int| 0 <= i < ls.len() ==> (#[trigger] ls[i]).len() < 0x8000_0000
}

/// Counts the leading "noise" lines of a body slice: doc and line
/// comments, `/* … */` blocks, `#[…]` / `#![…]` attributes (multi-line
/// ones followed through bracket depth), stray `*` block-comment
/// continuations and blank lines between them. Stops at the first line
/// that is none of these.
pub fn count_leading_noise_lines(slice: &[&str]) -> (n: usize)
    requires
        short_lines(str_views(slice@)),
    ensures
        n == noise_lines(str_views(slice@), 0, false),
        n <= slice.len(),
{
    let ghost ls = str_views(slice@);
    let mut i: usize = 0;
    let mut depth: i64 = 0;
    let mut in_block = false;
    assert(ls.skip(0) =~= ls);
    while i < slice.len()
        invariant
            i <= slice.len(),
            ls == str_views(slice@),
            short_lines(ls),
            -(i as int) * 0x8000_0000 <= depth <= (i as int) * 0x8000_0000,
            noise_lines(ls, 0, false) == i + noise_lines(ls.skip(i as int), depth as int, in_block),
        decreases slice.len() - i,
    {
        let raw = str_chars(slice[i]);
        let line = trim_start_vec(&raw);
        let ghost rest = ls.skip(i as int);
        assert(rest[0] == raw@);
        assert(rest.drop_first() =~= ls.skip(i + 1));
        assert(raw@.len() < 0x8000_0000) by {
            assert(ls[i as int] == raw@);
        }
        if in_block {
            if contains_lit(&line, "*/") {
                in_block = false;
            }
            i += 1;
            continue;
        }
        if depth > 0 {
            let dd = paren_depth_delta(&raw);
            proof {
                lemma_bracket_delta_bound(raw@);
            }
            depth = depth + dd;
            i += 1;
            continue;
        }
        if line.len() == 0 {
            i += 1;
            continue;
        }
        if starts_with_lit(&line, "///") || starts_with_lit(&line, "//!") || starts_with_lit(
            &line,
            "//",
        ) {
            i += 1;
            continue;
        }
        if starts_with_lit(&line, "/**") || starts_with_lit(&line, "/*") {
            if !contains_lit(&line, "*/") {
                in_block = true;
            }
            i += 1;
            continue;
        }
        if starts_with_lit(&line, "#[") || starts_with_lit(&line, "#![") {
            let dd = paren_depth_delta(&raw);
            proof {
                lemma_bracket_delta_bound(raw@);
            }
            depth = depth + dd;
            i += 1;
            continue;
        }
        if starts_with_lit(&line, "*") && !starts_with_lit(&line, "*/") {
            i += 1;
            continue;
        }
        assert(noise_lines(rest, depth as int, in_block) == 0);
        return i;
    }
    assert(ls.skip(i as int).len() == 0);
    i
}

} // verus!

verus! {

// ---------------------------------------------------------------------
// Indentation compaction
// ---------------------------------------------------------------------

pub open spec fn indent_char(c: char) -> bool {
    c == ' ' || c == '\t'
}

/// Length of the leading run of spaces and tabs.
pub open spec fn lead_ws_len(s: Seq<char>) -> nat
    decreases s.len(),
{
    if s.len() > 0 && indent_char(s[0]) {
        1 + lead_ws_len(s.drop_first())
    } else {
        0
    }
}

pub open spec fn lead_ws(s: Seq<char>) -> Seq<char> {
    s.take(lead_ws_len(s) as int)
}

proof fn lemma_lead_ws(s: Seq<char>)
    ensures
        lead_ws_len(s) <= s.len(),
        forall|j: int| 0 <= j < lead_ws_len(s) ==> indent_char(#[trigger] s[j]),
        lead_ws_len(s) < s.len() ==> !indent_char(s[lead_ws_len(s) as int]),
    decreases s.len(),
{
    if s.len() > 0 && indent_char(s[0]) {
        lemma_lead_ws(s.drop_first());
        assert forall|j: int| 0 <= j < lead_ws_len(s) implies indent_char(#[trigger] s[j]) by {
            if j > 0 {
                assert(s[j] == s.drop_first()[j - 1]);
            }
        }
    }
}

proof fn lemma_lead_ws_unique(s: Seq<char>, k: int)
    requires
        0 <= k <= s.len(),
        forall|j: int| 0 <= j < k ==> indent_char(#[trigger] s[j]),
        k < s.len() ==> !indent_char(s[k]),
    ensures
        lead_ws_len(s) == k,
    decreases s.len(),
{
    if k > 0 {
        assert(indent_char(s[0]));
        assert forall|j: int| 0 <= j < k - 1 implies indent_char(#[trigger] s.drop_first()[j]) by {
            assert(s.drop_first()[j] == s[j + 1]);
        }
        if k - 1 < s.drop_first().len() {
            assert(s.drop_first()[k - 1] == s[k]);
        }
        lemma_lead_ws_unique(s.drop_first(), k - 1);
    }
}

/// Length of the leading space/tab run of `s`.
pub fn leading_ws_len(s: &[char]) -> (k: usize)
    ensures
        k == lead_ws_len(s@),
        k <= s.len(),
{
    let mut k: usize = 0;
    while k < s.len() && (s[k] == ' ' || s[k] == '\t')
        invariant
            k <= s.len(),
            forall|j: int| 0 <= j < k ==> indent_char(#[trigger] s@[j]),
        decreases s.len() - k,
    {
        k += 1;
    }
    proof {
        lemma_lead_ws_unique(s@, k as int);
    }
    k
}

/// Length of the longest common prefix of two texts.
pub open spec fn common_prefix_len(a: Seq<char>, b: Seq<char>) -> nat
    decreases a.len(),
{
    if a.len() > 0 && b.len() > 0 && a[0] == b[0] {
        1 + common_prefix_len(a.drop_first(), b.drop_first())
    } else {
        0
    }
}

proof fn lemma_common_prefix(a: Seq<char>, b: Seq<char>, k: int)
    requires
        0 <= k <= a.len(),
        k <= b.len(),
        forall|j: int| 0 <= j < k ==> a[j] == b[j],
        k < a.len() && k < b.len() ==> a[k] != b[k],
    ensures
        common_prefix_len(a, b) == k,
    decreases a.len(),
{
    if k > 0 {
        assert(a[0] == b[0]);
        assert forall|j: int| 0 <= j < k - 1 implies a.drop_first()[j] == b.drop_first()[j] by {
            assert(a.drop_first()[j] == a[j + 1]);
            assert(b.drop_first()[j] == b[j + 1]);
        }
        if k - 1 < a.drop_first().len() && k - 1 < b.drop_first().len() {
            assert(a.drop_first()[k - 1] == a[k]);
            assert(b.drop_first()[k - 1] == b[k]);
        }
        lemma_common_prefix(a.drop_first(), b.drop_first(), k - 1);
    }
}

/// Common leading whitespace of the non-blank lines, folded left to right
/// (`acc` is the prefix found so far, `None` before the first non-blank).
pub open spec fn common_ws_from(ls: Seq<Seq<char>>, acc: Option<Seq<char>>) -> Seq<char>
    decreases ls.len(),
{
    if ls.len() == 0 {
        match acc {
            Some(p) => p,
            None => Seq::empty(),
        }
    } else if all_ws(ls[0]) {
        common_ws_from(ls.drop_first(), acc)
    } else {
        let lw = lead_ws(ls[0]);
        match acc {
            None => common_ws_from(ls.drop_first(), Some(lw)),
            Some(p) => common_ws_from(ls.drop_first(), Some(p.take(common_prefix_len(p, lw) as int))),
        }
    }
}

/// Longest leading space/tab sequence shared by every non-blank line.
pub open spec fn common_leading_ws(ls: Seq<Seq<char>>) -> Seq<char> {
    common_ws_from(ls, None)
}

fn common_prefix_len_exec(a: &[char], b: &[char]) -> (k: usize)
    ensures
        k == common_prefix_len(a@, b@),
        k <= a.len(),
        k <= b.len(),
{
    let mut k: usize = 0;
    while k < a.len() && k < b.len() && a[k] == b[k]
        invariant
            k <= a.len(),
            k <= b.len(),
            forall|j: int| 0 <= j < k ==> a@[j] == b@[j],
        decreases a.len() - k,
    {
        k += 1;
    }
    proof {
        lemma_common_prefix(a@, b@, k as int);
    }
    k
}

/// Longest common leading whitespace of the non-blank lines.
pub fn longest_common_leading_ws(lines: &[Vec<char>]) -> (p: Vec<char>)
    ensures
        p@ == common_leading_ws(crate::text::views(lines@)),
{
    let ghost ls = crate::text::views(lines@);
    let mut acc: Option<Vec<char>> = None;
    let mut i: usize = 0;
    assert(ls.skip(0) =~= ls);
    while i < lines.len()
        invariant
            i <= lines.len(),
            ls == crate::text::views(lines@),
            common_ws_from(ls, None) == common_ws_from(
                ls.skip(i as int),
                match acc {
                    Some(v) => Some(v@),
                    None => None,
                },
            ),
        decreases lines.len() - i,
    {
        let line = &lines[i];
        assert(ls.skip(i as int)[0] == line@);
        assert(ls.skip(i as int).drop_first() =~= ls.skip(i + 1));
        if !is_blank(line) {
            let n = leading_ws_len(line);
            let lw = crate::text::subrange_vec(line, 0, n);
            assert(lw@ =~= lead_ws(line@));
            acc = match acc {
                None => Some(lw),
                Some(p) => {
                    let k = common_prefix_len_exec(&p, &lw);
                    Some(crate::text::subrange_vec(&p, 0, k))
                },
            };
        }
        i += 1;
    }
    assert(ls.skip(i as int).len() == 0);
    match acc {
        Some(p) => p,
        None => Vec::new(),
    }
}

/// Flags summarising the residual indentation of the dedented lines.
pub open spec fn relevant(l: Seq<char>) -> bool {
    !all_ws(l) && lead_ws_len(l) > 0
}

pub open spec fn has_tab(s: Seq<char>) -> bool {
    s.contains('\t')
}

pub open spec fn has_space(s: Seq<char>) -> bool {
    s.contains(' ')
}

/// `Some(0)`: irregular residual indent (leave it); `None`: already tabs;
/// `Some(w)`: every spaced line is a multiple of `w` spaces (4 tried first).
pub open spec fn indent_unit(ls: Seq<Seq<char>>) -> Option<nat> {
    let mixed = exists|i: int| 0 <= i < ls.len() && relevant(ls[i]) && has_tab(lead_ws(ls[i])) && has_space(lead_ws(ls[i]));
    let tabbed = exists|i: int| 0 <= i < ls.len() && relevant(ls[i]) && has_tab(lead_ws(ls[i]));
    let spaced = exists|i: int| 0 <= i < ls.len() && relevant(ls[i]) && !has_tab(lead_ws(ls[i]));
    let all4 = forall|i: int| 0 <= i < ls.len() && relevant(ls[i]) && !has_tab(lead_ws(ls[i])) ==> lead_ws_len(ls[i]) % 4 == 0;
    let all2 = forall|i: int| 0 <= i < ls.len() && relevant(ls[i]) && !has_tab(lead_ws(ls[i])) ==> lead_ws_len(ls[i]) % 2 == 0;
    if mixed {
        Some(0)
    } else if tabbed && !spaced {
        None
    } else if tabbed || !spaced {
        Some(0)
    } else if all4 {
        Some(4)
    } else if all2 {
        Some(2)
    } else {
        Some(0)
    }
}

/// Classifies the residual indentation of `lines` (see [`indent_unit`]).
pub fn detect_indent_unit(lines: &[Vec<char>]) -> (r: Option<usize>)
    ensures
        r matches Some(w) ==> indent_unit(crate::text::views(lines@)) == Some(w as nat),
        r is None ==> indent_unit(crate::text::views(lines@)) is None,
{
    let ghost ls = crate::text::views(lines@);
    let mut mixed = false;
    let mut tabbed = false;
    let mut spaced = false;
    let mut all4 = true;
    let mut all2 = true;
    let mut i: usize = 0;
    while i < lines.len()
        invariant
            i <= lines.len(),
            ls == crate::text::views(lines@),
            mixed == exists|j: int| 0 <= j < i && relevant(ls[j]) && has_tab(lead_ws(ls[j])) && has_space(lead_ws(ls[j])),
            tabbed == exists|j: int| 0 <= j < i && relevant(ls[j]) && has_tab(lead_ws(ls[j])),
            spaced == exists|j: int| 0 <= j < i && relevant(ls[j]) && !has_tab(lead_ws(ls[j])),
            all4 == forall|j: int| 0 <= j < i && relevant(ls[j]) && !has_tab(lead_ws(ls[j])) ==> lead_ws_len(ls[j]) % 4 == 0,
            all2 == forall|j: int| 0 <= j < i && relevant(ls[j]) && !has_tab(lead_ws(ls[j])) ==> lead_ws_len(ls[j]) % 2 == 0,
        decreases lines.len() - i,
    {
        let line = &lines[i];
        assert(ls[i as int] == line@);
        let blank = is_blank(line);
        let n = leading_ws_len(line);
        if !blank && n > 0 {
            let lw = crate::text::subrange_vec(line, 0, n);
            assert(lw@ =~= lead_ws(line@));
            let t = crate::text::contains_char(&lw, '\t');
            let sp = crate::text::contains_char(&lw, ' ');
            if t && sp {
                mixed = true;
            }
            if t {
                tabbed = true;
            } else {
                spaced = true;
                if n % 4 != 0 {
                    all4 = false;
                }
                if n % 2 != 0 {
                    all2 = false;
                }
            }
        }
        i += 1;
    }
    if mixed {
        return Some(0);
    }
    if tabbed && !spaced {
        return None;
    }
    if tabbed {
        return Some(0);
    }
    if !spaced {
        return Some(0);
    }
    if all4 {
        return Some(4);
    }
    if all2 {
        return Some(2);
    }
    Some(0)
}

/// Number of leading space characters.
pub open spec fn lead_spaces(s: Seq<char>) -> nat
    decreases s.len(),
{
    if s.len() > 0 && s[0] == ' ' {
        1 + lead_spaces(s.drop_first())
    } else {
        0
    }
}

proof fn lemma_lead_spaces(s: Seq<char>, k: int)
    requires
        0 <= k <= s.len(),
        forall|j: int| 0 <= j < k ==> #[trigger] s[j] == ' ',
    ensures
        lead_spaces(s) >= k,
        lead_spaces(s) <= s.len(),
        k < s.len() && s[k] != ' ' ==> lead_spaces(s) == k,
    decreases s.len(),
{
    if s.len() > 0 && s[0] == ' ' {
        if k > 0 {
            assert forall|j: int| 0 <= j < k - 1 implies #[trigger] s.drop_first()[j] == ' ' by {
                assert(s.drop_first()[j] == s[j + 1]);
            }
            if k < s.len() {
                assert(s.drop_first()[k - 1] == s[k]);
            }
            lemma_lead_spaces(s.drop_first(), k - 1);
        } else {
            lemma_lead_spaces(s.drop_first(), 0);
        }
    }
}

proof fn lemma_lead_spaces_all(s: Seq<char>)
    ensures
        forall|j: int| 0 <= j < lead_spaces(s) ==> #[trigger] s[j] == ' ',
        lead_spaces(s) <= s.len(),
        lead_spaces(s) < s.len() ==> s[lead_spaces(s) as int] != ' ',
    decreases s.len(),
{
    if s.len() > 0 && s[0] == ' ' {
        lemma_lead_spaces_all(s.drop_first());
        assert forall|j: int| 0 <= j < lead_spaces(s) implies #[trigger] s[j] == ' ' by {
            if j > 0 {
                assert(s[j] == s.drop_first()[j - 1]);
            }
        }
    }
}

/// `n` tab characters.
pub open spec fn tabs(n: nat) -> Seq<char> {
    Seq::new(n, |i: int| '\t')
}

/// Every complete group of `width` leading spaces becomes one tab.
pub open spec fn spaces_to_tabs(line: Seq<char>, width: nat) -> Seq<char> {
    let groups = lead_spaces(line) / width;
    tabs(groups) + line.skip((groups * width) as int)
}

/// Converts each complete group of `width` leading spaces to a tab.
pub fn convert_leading_spaces_to_tabs(line: &[char], width: usize) -> (v: Vec<char>)
    requires
        width > 0,
    ensures
        v@ == spaces_to_tabs(line@, width as nat),
{
    let mut groups: usize = 0;
    let mut i: usize = 0;
    proof {
        lemma_lead_spaces_all(line@);
    }
    while i <= line.len() && width <= line.len() - i && spaces_at(line, i, width)
        invariant
            i <= line.len(),
            width > 0,
            i == groups * width,
            groups <= i,
            forall|j: int| 0 <= j < i ==> #[trigger] line@[j] == ' ',
            forall|j: int| 0 <= j < lead_spaces(line@) ==> #[trigger] line@[j] == ' ',
            lead_spaces(line@) <= line@.len(),
            lead_spaces(line@) < line@.len() ==> line@[lead_spaces(line@) as int] != ' ',
        decreases line.len() - i,
    {
        proof {
            assert(forall|j: int| 0 <= j < i + width ==> #[trigger] line@[j] == ' ');
        }
        assert(groups + 1 <= i + width);
        i = i + width;
        groups = groups + 1;
        assert(i == groups * width) by (nonlinear_arith)
            requires
                i == (groups - 1) * width + width,
        ;
    }
    proof {
        lemma_lead_spaces(line@, i as int);
        let ls = lead_spaces(line@);
        // The next group is incomplete: fewer than `width` spaces remain.
        assert(ls < i + width) by {
            if ls >= i + width {
                assert(width <= line.len() - i);
                assert(forall|j: int| i <= j < i + width ==> #[trigger] line@[j] == ' ');
            }
        }
        assert(ls / (width as nat) == groups) by (nonlinear_arith)
            requires
                groups * width <= ls < groups * width + width,
                width > 0,
        ;
    }
    let mut out: Vec<char> = Vec::new();
    let mut k: usize = 0;
    while k < groups
        invariant
            k <= groups,
            out@ == tabs(k as nat),
        decreases groups - k,
    {
        out.push('\t');
        k += 1;
        assert(out@ =~= tabs(k as nat));
    }
    let rest = crate::text::subrange_vec(line, i, line.len());
    crate::text::push_all(&mut out, &rest);
    assert(out@ =~= spaces_to_tabs(line@, width as nat));
    out
}

/// Whether `line[i..i + width]` is made of spaces only.
fn spaces_at(line: &[char], i: usize, width: usize) -> (b: bool)
    requires
        i + width <= line.len(),
    ensures
        b <==> forall|j: int| i <= j < i + width ==> #[trigger] line@[j] == ' ',
{
    let mut k: usize = 0;
    while k < width
        invariant
            k <= width,
            i + width <= line.len(),
            forall|j: int| i <= j < i + k ==> #[trigger] line@[j] == ' ',
        decreases width - k,
    {
        if line[i + k] != ' ' {
            return false;
        }
        k += 1;
    }
    true
}

} // verus!

verus! {

// ---------------------------------------------------------------------
// Body compaction
// ---------------------------------------------------------------------

/// A line with the common prefix removed; a line that does not start
/// with it (only possible for a blank line) becomes empty.
pub open spec fn dedent_line(l: Seq<char>, common: Seq<char>) -> Seq<char> {
    if starts_with(l, common) {
        l.skip(common.len() as int)
    } else {
        Seq::empty()
    }
}

pub open spec fn dedented(ls: Seq<Seq<char>>) -> Seq<Seq<char>> {
    let common = common_leading_ws(ls);
    ls.map_values(|l: Seq<char>| dedent_line(l, common))
}

/// Lines after the dedent and, where a regular space unit was found,
/// the conversion of leading space groups to tabs.
pub open spec fn compacted_lines(ls: Seq<Seq<char>>) -> Seq<Seq<char>> {
    let st = dedented(ls);
    match indent_unit(st) {
        Some(w) => if w > 0 {
            st.map_values(|l: Seq<char>| spaces_to_tabs(l, w))
        } else {
            st
        },
        None => st,
    }
}

/// What one indent level of the compacted body looks like.
pub open spec fn compacted_unit(ls: Seq<Seq<char>>) -> Seq<char> {
    match indent_unit(dedented(ls)) {
        Some(w) => if w > 0 {
            seq!['\t']
        } else {
            Seq::empty()
        },
        None => seq!['\t'],
    }
}

/// A compacted body ready to be sent, with what was done to it.
pub struct CompactedBody {
    pub body: String,
    pub dedented_prefix_len: u32,
    pub indent_unit: String,
}

pub open spec fn saturating_u32(n: nat) -> u32 {
    if n > u32::MAX {
        u32::MAX
    } else {
        n as u32
    }
}

/// Dedents the common leading whitespace of the non-blank lines, then
/// converts uniform leading space groups to tabs, and joins the lines
/// with `\n`.
pub fn compact_body_indent(lines: &[&str]) -> (out: CompactedBody)
    ensures
        out.body@ == join_with(compacted_lines(str_views(lines@)), '\n'),
        out.dedented_prefix_len == saturating_u32(common_leading_ws(str_views(lines@)).len()),
        out.indent_unit@ == compacted_unit(str_views(lines@)),
{
    let ghost ls = str_views(lines@);
    let mut chars: Vec<Vec<char>> = Vec::new();
    let mut i: usize = 0;
    while i < lines.len()
        invariant
            i <= lines.len(),
            ls == str_views(lines@),
            views(chars@) == ls.take(i as int),
        decreases lines.len() - i,
    {
        let c = crate::text::str_chars(lines[i]);
        let ghost prev = views(chars@);
        chars.push(c);
        assert(views(chars@) =~= prev.push(lines@[i as int]@));
        i += 1;
        assert(views(chars@) =~= ls.take(i as int));
    }
    assert(ls.take(lines.len() as int) =~= ls);
    let common = longest_common_leading_ws(&chars);
    let ghost st = dedented(ls);
    let mut stripped: Vec<Vec<char>> = Vec::new();
    let mut i: usize = 0;
    while i < chars.len()
        invariant
            i <= chars.len(),
            views(chars@) == ls,
            common@ == common_leading_ws(ls),
            st == dedented(ls),
            views(stripped@) == st.take(i as int),
        decreases chars.len() - i,
    {
        let line = &chars[i];
        assert(ls[i as int] == line@);
        let d = if crate::text::has_prefix(line, &common) {
            crate::text::subrange_vec(line, common.len(), line.len())
        } else {
            Vec::new()
        };
        assert(d@ =~= dedent_line(line@, common@));
        let ghost prev = views(stripped@);
        stripped.push(d);
        assert(views(stripped@) =~= prev.push(st[i as int]));
        i += 1;
        assert(views(stripped@) =~= st.take(i as int));
    }
    assert(st.take(chars.len() as int) =~= st);
    let unit = detect_indent_unit(&stripped);
    let (final_lines, indent_unit) = match unit {
        Some(width) => {
            if width > 0 {
                let ghost conv = st.map_values(|l: Seq<char>| spaces_to_tabs(l, width as nat));
                let mut converted: Vec<Vec<char>> = Vec::new();
                let mut k: usize = 0;
                while k < stripped.len()
                    invariant
                        k <= stripped.len(),
                        width > 0,
                        views(stripped@) == st,
                        conv == st.map_values(|l: Seq<char>| spaces_to_tabs(l, width as nat)),
                        views(converted@) == conv.take(k as int),
                    decreases stripped.len() - k,
                {
                    assert(st[k as int] == stripped@[k as int]@);
                    let t = convert_leading_spaces_to_tabs(&stripped[k], width);
                    let ghost prev = views(converted@);
                    converted.push(t);
                    assert(views(converted@) =~= prev.push(conv[k as int]));
                    k += 1;
                    assert(views(converted@) =~= conv.take(k as int));
                }
                assert(conv.take(stripped.len() as int) =~= conv);
                (converted, crate::text::string_from_chars(vec!['\t']))
            } else {
                (stripped, String::new())
            }
        },
        None => (stripped, crate::text::string_from_chars(vec!['\t'])),
    };
    let joined = crate::text::join_pieces(&final_lines, '\n');
    let body = crate::text::string_from_chars(joined);
    let prefix_len: u32 = if common.len() > 0xffff_ffff {
        0xffff_ffff
    } else {
        common.len() as u32
    };
    CompactedBody { body, dedented_prefix_len: prefix_len, indent_unit }
}

} // verus!

verus! {

// ---------------------------------------------------------------------
// Blank-line collapsing
// ---------------------------------------------------------------------

/// The lines kept when every run of blank (whitespace-only) lines is
/// cut down to its first line.
pub open spec fn collapse_blank_runs(ls: Seq<Seq<char>>) -> Seq<Seq<char>>
    decreases ls.len(),
{
    if ls.len() == 0 {
        Seq::empty()
    } else {
        let init = collapse_blank_runs(ls.drop_last());
        if ls.len() >= 2 && all_ws(ls.last()) && all_ws(ls[ls.len() - 2]) {
            init
        } else {
            init.push(ls.last())
        }
    }
}

/// `body` with every run of blank lines collapsed to a single one.
pub open spec fn collapsed_blank_lines(body: Seq<char>) -> Seq<char> {
    join_with(collapse_blank_runs(split_char(body, '\n')), '\n')
}

/// Collapses runs of consecutive blank lines (whitespace only) into one.
pub fn collapse_blank_lines_in_body(body: &str) -> (out: String)
    ensures
        out@ == collapsed_blank_lines(body@),
{
    let chars = str_chars(body);
    let pieces = crate::text::split_on(&chars, '\n');
    let ghost ps = views(pieces@);
    let mut kept: Vec<Vec<char>> = Vec::new();
    let mut prev_blank = false;
    let mut i: usize = 0;
    assert(ps.take(0) =~= Seq::<Seq<char>>::empty());
    while i < pieces.len()
        invariant
            i <= pieces.len(),
            ps == views(pieces@),
            views(kept@) == collapse_blank_runs(ps.take(i as int)),
            i > 0 ==> prev_blank == all_ws(ps[i - 1]),
            i == 0 ==> !prev_blank,
        decreases pieces.len() - i,
    {
        let line = &pieces[i];
        assert(ps[i as int] == line@);
        assert(ps.take(i + 1).drop_last() =~= ps.take(i as int));
        assert(ps.take(i + 1).last() == ps[i as int]);
        let blank = is_blank(line);
        if !(blank && prev_blank) {
            let copy = crate::text::chars_to_vec(line);
            let ghost prev = views(kept@);
            kept.push(copy);
            assert(views(kept@) =~= prev.push(line@));
        } else {
            assert(i > 0);
            assert(ps.take(i + 1)[i - 1] == ps[i - 1]);
            assert(all_ws(ps.take(i + 1).last()));
        }
        prev_blank = blank;
        i += 1;
    }
    assert(ps.take(pieces.len() as int) =~= ps);
    let joined = crate::text::join_pieces(&kept, '\n');
    crate::text::string_from_chars(joined)
}

/// No two consecutive lines are both blank.
pub open spec fn no_blank_pairs(ls: Seq<Seq<char>>) -> bool {
    forall|i: int| 0 <= i < ls.len() - 1 ==> !(all_ws(#[trigger] ls[i]) && all_ws(ls[i + 1]))
}

proof fn lemma_collapse_runs_shape(ls: Seq<Seq<char>>)
    ensures
        no_blank_pairs(collapse_blank_runs(ls)),
        ls.len() > 0 ==> collapse_blank_runs(ls).len() > 0,
        ls.len() > 0 ==> collapse_blank_runs(ls).last() == ls.last() || (all_ws(ls.last()) && all_ws(
            collapse_blank_runs(ls).last(),
        )),
        forall|i: int| 0 <= i < collapse_blank_runs(ls).len() ==> ls.contains(#[trigger] collapse_blank_runs(ls)[i]),
    decreases ls.len(),
{
    if ls.len() > 0 {
        let init = ls.drop_last();
        lemma_collapse_runs_shape(init);
        let ci = collapse_blank_runs(init);
        assert forall|i: int| 0 <= i < ci.len() implies ls.contains(#[trigger] ci[i]) by {
            assert(init.contains(ci[i]));
            let k = choose|k: int| 0 <= k < init.len() && init[k] == ci[i];
            assert(ls[k] == ci[i]);
        }
        if ls.len() >= 2 && all_ws(ls.last()) && all_ws(ls[ls.len() - 2]) {
            assert(init.last() == ls[ls.len() - 2]);
        } else {
            let r = ci.push(ls.last());
            assert(ls.contains(ls.last())) by {
                assert(ls[ls.len() - 1] == ls.last());
            }
            assert forall|i: int| 0 <= i < r.len() - 1 implies !(all_ws(#[trigger] r[i]) && all_ws(r[i + 1])) by {
                if i == r.len() - 2 {
                    assert(r[i] == ci.last());
                    if init.len() > 0 && all_ws(ls.last()) {
                        assert(init.last() == ls[ls.len() - 2]);
                    }
                } else {
                    assert(r[i] == ci[i]);
                    assert(r[i + 1] == ci[i + 1]);
                }
            }
            assert forall|i: int| 0 <= i < r.len() implies ls.contains(#[trigger] r[i]) by {
                if i < ci.len() {
                    assert(r[i] == ci[i]);
                }
            }
        }
    }
}

/// Collapsing lines that hold no blank pair changes nothing.
proof fn lemma_collapse_runs_fixed(ls: Seq<Seq<char>>)
    requires
        no_blank_pairs(ls),
    ensures
        collapse_blank_runs(ls) == ls,
    decreases ls.len(),
{
    if ls.len() > 0 {
        let init = ls.drop_last();
        assert forall|i: int| 0 <= i < init.len() - 1 implies !(all_ws(#[trigger] init[i]) && all_ws(init[i + 1])) by {
            assert(init[i] == ls[i]);
            assert(init[i + 1] == ls[i + 1]);
        }
        lemma_collapse_runs_fixed(init);
        if ls.len() >= 2 {
            assert(!(all_ws(ls[ls.len() - 2]) && all_ws(ls[ls.len() - 1])));
            assert(ls[ls.len() - 1] == ls.last());
        }
        assert(init.push(ls.last()) =~= ls);
    }
}

/// No piece of a split holds the separator.
proof fn lemma_split_pieces_free(s: Seq<char>, c: char)
    ensures
        forall|i: int| 0 <= i < split_char(s, c).len() ==> !(#[trigger] split_char(s, c)[i]).contains(c),
    decreases s.len(),
{
    if s.len() > 0 {
        lemma_split_pieces_free(s.drop_last(), c);
        crate::text::lemma_split_char_nonempty(s.drop_last(), c);
        let init = split_char(s.drop_last(), c);
        if s.last() != c {
            let r = init.update(init.len() - 1, init.last().push(s.last()));
            assert forall|i: int| 0 <= i < r.len() implies !(#[trigger] r[i]).contains(c) by {
                if i == init.len() - 1 {
                    let p = init.last().push(s.last());
                    assert(!init[init.len() - 1].contains(c));
                    if p.contains(c) {
                        let k = choose|k: int| 0 <= k < p.len() && p[k] == c;
                        if k < p.len() - 1 {
                            assert(init.last()[k] == c);
                            assert(init[init.len() - 1].contains(c));
                        }
                    }
                }
            }
        } else {
            let r = init.push(Seq::<char>::empty());
            assert forall|i: int| 0 <= i < r.len() implies !(#[trigger] r[i]).contains(c) by {
                if i < init.len() {
                    assert(r[i] == init[i]);
                }
            }
        }
    }
}

/// Collapsing blank lines leaves no two consecutive blank lines, and
/// collapsing a collapsed body changes nothing.
pub proof fn lemma_collapse_blank_lines_idempotent(body: Seq<char>)
    ensures
        no_blank_pairs(split_char(collapsed_blank_lines(body), '\n')),
        collapsed_blank_lines(collapsed_blank_lines(body)) == collapsed_blank_lines(body),
{
    let ps = split_char(body, '\n');
    crate::text::lemma_split_char_nonempty(body, '\n');
    lemma_split_pieces_free(body, '\n');
    lemma_collapse_runs_shape(ps);
    let cs = collapse_blank_runs(ps);
    assert forall|i: int| 0 <= i < cs.len() implies !(#[trigger] cs[i]).contains('\n') by {
        assert(ps.contains(cs[i]));
        let k = choose|k: int| 0 <= k < ps.len() && ps[k] == cs[i];
        assert(!ps[k].contains('\n'));
    }
    crate::text::lemma_split_join(cs, '\n');
    lemma_collapse_runs_fixed(cs);
}

} // verus!

verus! {

// ---------------------------------------------------------------------
// Body slices
// ---------------------------------------------------------------------

/// A symbol's source slice as served to a client, with what was done to it.
#[derive(Debug, Clone, PartialEq, Eq)]
pub struct BodySlice {
    pub fqdn: String,
    pub file: String,
    pub start_line: u32,
    pub end_line: u32,
    pub body: String,
    /// `max_lines` cut the slice short.
    pub truncated: bool,
    pub total_body_lines: u32,
    /// Leading noise lines dropped by `strip_attrs`.
    pub stripped_lines: u32,
    /// `signature_only` cut the slice after its first `{` line.
    pub signature_only: bool,
    pub dedented_prefix_len: u32,
    pub indent_unit: String,
}

/// How a body slice is trimmed. The default returns the slice verbatim
/// (apart from indentation compaction).
#[derive(Debug, Default, Clone, Copy)]
pub struct BodyOptions {
    /// Cap on the number of returned lines.
    pub max_lines: Option<u32>,
    /// Drop leading doc comments, attributes and the blank lines between them.
    pub strip_attrs: bool,
    /// Stop after the first line holding `{`.
    pub signature_only: bool,
    /// Remove `//` and `/* … */` comments (newlines kept).
    pub strip_inline_comments: bool,
    /// Collapse runs of blank lines into one.
    pub collapse_blank_lines: bool,
}

/// `i` is the first line holding `{`.
pub open spec fn first_brace_at(ls: Seq<Seq<char>>, i: int) -> bool {
    &&& 0 <= i < ls.len()
    &&& ls[i].contains('{')
    &&& forall|j: int| 0 <= j < i ==> !(#[trigger] ls[j]).contains('{')
}

pub open spec fn has_brace_line(ls: Seq<Seq<char>>) -> bool {
    exists|i: int| first_brace_at(ls, i)
}

/// The lines up to and including the first one holding `{` (all of
/// them when none does).
pub open spec fn signature_cut(ls: Seq<Seq<char>>) -> Seq<Seq<char>> {
    if has_brace_line(ls) {
        ls.take((choose|i: int| first_brace_at(ls, i)) + 1)
    } else {
        ls
    }
}

/// First line of the window (0-based): `start_line - 1`, saturating.
pub open spec fn window_start(start_line: u32) -> int {
    if start_line == 0 {
        0
    } else {
        start_line - 1
    }
}

/// One past the last line of the window: `end_line`, clamped to the file.
pub open spec fn window_end(end_line: u32, n: nat) -> int {
    if end_line <= n {
        end_line as int
    } else {
        n as int
    }
}

pub open spec fn after_strip(raw: Seq<Seq<char>>, opts: BodyOptions) -> Seq<Seq<char>> {
    if opts.strip_attrs {
        raw.skip(noise_lines(raw, 0, false) as int)
    } else {
        raw
    }
}

pub open spec fn after_signature(raw: Seq<Seq<char>>, opts: BodyOptions) -> Seq<Seq<char>> {
    let a = after_strip(raw, opts);
    if opts.signature_only {
        signature_cut(a)
    } else {
        a
    }
}

pub open spec fn cap_applies(raw: Seq<Seq<char>>, opts: BodyOptions) -> bool {
    opts.max_lines matches Some(cap) && cap < after_signature(raw, opts).len()
}

/// The lines that are compacted and returned.
pub open spec fn taken_lines(raw: Seq<Seq<char>>, opts: BodyOptions) -> Seq<Seq<char>> {
    let a = after_signature(raw, opts);
    if cap_applies(raw, opts) {
        a.take(opts.max_lines->0 as int)
    } else {
        a
    }
}

/// The returned body text, from the lines that were taken.
pub open spec fn rendered_body(taken: Seq<Seq<char>>, opts: BodyOptions) -> Seq<char> {
    let compact = join_with(compacted_lines(taken), '\n');
    let stripped = if opts.strip_inline_comments {
        crate::comments::stripped_comments(compact)
    } else {
        compact
    };
    if opts.collapse_blank_lines {
        collapsed_blank_lines(stripped)
    } else {
        stripped
    }
}

/// Index of the first line holding `{`, if any.
fn find_brace_line(ls: &[&str]) -> (r: Option<usize>)
    ensures
        r matches Some(i) ==> first_brace_at(str_views(ls@), i as int),
        r is None ==> !has_brace_line(str_views(ls@)),
{
    let ghost v = str_views(ls@);
    let mut i: usize = 0;
    while i < ls.len()
        invariant
            i <= ls.len(),
            v == str_views(ls@),
            forall|j: int| 0 <= j < i ==> !(#[trigger] v[j]).contains('{'),
        decreases ls.len() - i,
    {
        let line = str_chars(ls[i]);
        assert(v[i as int] == line@);
        if crate::text::contains_char(&line, '{') {
            return Some(i);
        }
        i += 1;
    }
    None
}

proof fn lemma_first_brace_unique(ls: Seq<Seq<char>>, i: int, k: int)
    requires
        first_brace_at(ls, i),
        first_brace_at(ls, k),
    ensures
        i == k,
{
    if i < k {
        assert(!ls[i].contains('{'));
    } else if k < i {
        assert(!ls[k].contains('{'));
    }
}

fn saturate_u32(n: usize) -> (r: u32)
    ensures
        r == saturating_u32(n as nat),
{
    if n > 0xffff_ffff {
        0xffff_ffff
    } else {
        n as u32
    }
}

/// Applies `strip_attrs`, `signature_only` and `max_lines` to a window
/// of lines: the lines kept, the noise lines dropped, whether the
/// signature cut and whether the cap applied.
fn trim_window<'a>(raw_slice: &'a [&'a str], opts: &BodyOptions) -> (r: (&'a [&'a str], u32, bool, bool))
    requires
        short_lines(str_views(raw_slice@)),
    ensures
        str_views(r.0@) == taken_lines(str_views(raw_slice@), *opts),
        r.1 == (if opts.strip_attrs {
            saturating_u32(noise_lines(str_views(raw_slice@), 0, false))
        } else {
            0u32
        }),
        r.2 == (opts.signature_only && has_brace_line(after_strip(str_views(raw_slice@), *opts))),
        r.3 == cap_applies(str_views(raw_slice@), *opts),
{
    let ghost raw = str_views(raw_slice@);
    let stripped_count = if opts.strip_attrs {
        count_leading_noise_lines(raw_slice)
    } else {
        0
    };
    let after = vstd::slice::slice_subrange(raw_slice, stripped_count, raw_slice.len());
    assert(str_views(after@) =~= after_strip(raw, *opts));
    let (after_sig, sig_cut) = if opts.signature_only {
        match find_brace_line(after) {
            Some(i) => {
                proof {
                    let c = choose|k: int| first_brace_at(str_views(after@), k);
                    lemma_first_brace_unique(str_views(after@), i as int, c);
                }
                let cut = vstd::slice::slice_subrange(after, 0, i + 1);
                assert(str_views(cut@) =~= str_views(after@).take(i + 1));
                (cut, true)
            },
            None => (after, false),
        }
    } else {
        (after, false)
    };
    assert(str_views(after_sig@) =~= after_signature(raw, *opts));
    let (taken, truncated) = match opts.max_lines {
        Some(cap) => {
            if (cap as usize) < after_sig.len() {
                let t = vstd::slice::slice_subrange(after_sig, 0, cap as usize);
                assert(str_views(t@) =~= str_views(after_sig@).take(cap as int));
                (t, true)
            } else {
                (after_sig, false)
            }
        },
        None => (after_sig, false),
    };
    (taken, saturate_u32(stripped_count), sig_cut, truncated)
}

/// Applies `strip_inline_comments` and `collapse_blank_lines` to a
/// compacted body.
fn render_compacted(compact: String, opts: &BodyOptions) -> (out: String)
    ensures
        out@ == ({
            let stripped = if opts.strip_inline_comments {
                crate::comments::stripped_comments(compact@)
            } else {
                compact@
            };
            if opts.collapse_blank_lines {
                collapsed_blank_lines(stripped)
            } else {
                stripped
            }
        }),
{
    let stripped = if opts.strip_inline_comments {
        crate::comments::strip_inline_comments_in_body(compact.as_str())
    } else {
        compact
    };
    if opts.collapse_blank_lines {
        collapse_blank_lines_in_body(stripped.as_str())
    } else {
        stripped
    }
}

/// Builds the body slice of a symbol whose declaration spans
/// `start_line..=end_line` (1-based) of a file whose lines are
/// `all_lines`, trimmed as `opts` asks.
pub fn slice_symbol_body(
    fqdn: String,
    file: String,
    start_line: u32,
    end_line: u32,
    all_lines: &[&str],
    opts: &BodyOptions,
) -> (out: BodySlice)
    requires
        short_lines(str_views(all_lines@)),
    ensures
        out.fqdn == fqdn,
        out.file == file,
        out.start_line == start_line,
        out.end_line == end_line,
        ({
            let a = window_start(start_line);
            let b = window_end(end_line, all_lines@.len());
            let raw = str_views(all_lines@).subrange(a, b);
            if a >= b {
                &&& out.body@ == Seq::<char>::empty()
                &&& !out.truncated
                &&& out.total_body_lines == 0
                &&& out.stripped_lines == 0
                &&& !out.signature_only
                &&& out.dedented_prefix_len == 0
                &&& out.indent_unit@ == Seq::<char>::empty()
            } else {
                &&& out.body@ == rendered_body(taken_lines(raw, *opts), *opts)
                &&& out.truncated == cap_applies(raw, *opts)
                &&& out.total_body_lines == saturating_u32((b - a) as nat)
                &&& out.stripped_lines == (if opts.strip_attrs {
                    saturating_u32(noise_lines(raw, 0, false))
                } else {
                    0u32
                })
                &&& out.signature_only == (opts.signature_only && has_brace_line(after_strip(raw, *opts)))
                &&& out.dedented_prefix_len == saturating_u32(
                    common_leading_ws(taken_lines(raw, *opts)).len(),
                )
                &&& out.indent_unit@ == compacted_unit(taken_lines(raw, *opts))
            }
        }),
{
    let n = all_lines.len();
    let start_zero: usize = if start_line == 0 {
        0
    } else {
        (start_line - 1) as usize
    };
    let end_inclusive: usize = if (end_line as usize) <= n {
        end_line as usize
    } else {
        n
    };
    if start_zero >= end_inclusive {
        return BodySlice {
            fqdn,
            file,
            start_line,
            end_line,
            body: String::new(),
            truncated: false,
            total_body_lines: 0,
            stripped_lines: 0,
            signature_only: false,
            dedented_prefix_len: 0,
            indent_unit: String::new(),
        };
    }
    let ghost all = str_views(all_lines@);
    let raw_slice = vstd::slice::slice_subrange(all_lines, start_zero, end_inclusive);
    let ghost raw = str_views(raw_slice@);
    assert(raw =~= all.subrange(start_zero as int, end_inclusive as int));
    assert(short_lines(raw)) by {
        assert forall|i: int| 0 <= i < raw.len() implies (#[trigger] raw[i]).len() < 0x8000_0000 by {
            assert(raw[i] == all[start_zero + i]);
        }
    }
    let total = saturate_u32(raw_slice.len());
    let (taken, stripped_count, sig_cut, truncated) = trim_window(raw_slice, opts);
    let compact = compact_body_indent(taken);
    let final_body = render_compacted(compact.body, opts);
    BodySlice {
        fqdn,
        file,
        start_line,
        end_line,
        body: final_body,
        truncated,
        total_body_lines: total,
        stripped_lines: stripped_count,
        signature_only: sig_cut,
        dedented_prefix_len: compact.dedented_prefix_len,
        indent_unit: compact.indent_unit,
    }
}

} // verus!
