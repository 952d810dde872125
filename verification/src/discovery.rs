//! Prose-source selection for the retrieval layer: convention paths,
//! the `standardoc:` frontmatter directive and the per-file indexing
//! decision.
use vstd::prelude::*;
use crate::text::{
    ascii_lower_seq, ascii_lower_vec, eq_lit, lines, lines_of, starts_with, starts_with_lit,
    str_chars, subrange_vec, trim, trim_matches, trim_matches_vec, trim_start, trim_start_vec,
    trim_vec, views,
};

verus! {

/// Value of the `standardoc:` directive in a markdown file's frontmatter.
#[derive(Debug, Clone, Copy, PartialEq, Eq, Structural)]
pub enum FrontmatterDirective {
    /// `standardoc: rag` — the author opted the file in.
    Rag,
    /// `standardoc: false` — the author opted the file out.
    Disabled,
    /// No recognised directive.
    Absent,
}

/// File names recognised as prose entry points at any depth.
pub open spec fn is_root_doc_name(n: Seq<char>) -> bool {
    ||| n == "README.md"@
    ||| n == "CHANGELOG.md"@
    ||| n == "ARCHITECTURE.md"@
    ||| n == "CONTRIBUTING.md"@
}

/// Index of the last `/` or `\`.
pub open spec fn last_sep(s: Seq<char>) -> Option<int> {
    if exists|i: int| 0 <= i < s.len() && (s[i] == '/' || s[i] == '\\') {
        Some(choose|i: int| 0 <= i < s.len() && (s[i] == '/' || s[i] == '\\') && (forall|j: int| i < j < s.len() ==> s[j] != '/' && s[j] != '\\'))
    } else {
        None
    }
}

/// The path is a root doc file itself or its last segment (after the last
/// `/` or `\`) is one.
pub open spec fn root_doc_file(rel: Seq<char>) -> bool {
    ||| is_root_doc_name(rel)
    ||| (last_sep(rel) matches Some(i) && is_root_doc_name(rel.skip(i + 1)))
}

/// The path lives under a `docs/` or `notes/` directory prefix (either
/// separator).
pub open spec fn prose_dir(rel: Seq<char>) -> bool {
    ||| starts_with(rel, "docs/"@)
    ||| starts_with(rel, "docs\\"@)
    ||| starts_with(rel, "notes/"@)
    ||| starts_with(rel, "notes\\"@)
}

pub open spec fn convention_path(rel: Seq<char>) -> bool {
    root_doc_file(rel) || prose_dir(rel)
}

fn root_doc_name(n: &[char]) -> (b: bool)
    ensures
        b == is_root_doc_name(n@),
{
    eq_lit(n, "README.md") || eq_lit(n, "CHANGELOG.md") || eq_lit(n, "ARCHITECTURE.md") || eq_lit(
        n,
        "CONTRIBUTING.md",
    )
}

fn find_last_sep(s: &[char]) -> (r: Option<usize>)
    ensures
        r is None ==> last_sep(s@) is None,
        r matches Some(i) ==> i < s.len() && last_sep(s@) == Some(i as int),
{
    let mut i: usize = s.len();
    while i > 0
        invariant
            i <= s.len(),
            forall|j: int| i <= j < s.len() ==> s@[j] != '/' && s@[j] != '\\',
        decreases i,
    {
        if s[i - 1] == '/' || s[i - 1] == '\\' {
            let k: usize = i - 1;
            proof {
                let w = choose|w: int| 0 <= w < s@.len() && (s@[w] == '/' || s@[w] == '\\') && (forall|j: int| w < j < s@.len() ==> s@[j] != '/' && s@[j] != '\\');
                if w < k {
                    assert(s@[k as int] == '/' || s@[k as int] == '\\');
                }
                if w > k {
                    assert(s@[w] == '/' || s@[w] == '\\');
                }
            }
            return Some(k);
        }
        i -= 1;
    }
    None
}

pub fn matches_root_doc_file(rel_path: &str) -> (b: bool)
    ensures
        b == root_doc_file(rel_path@),
{
    let s = str_chars(rel_path);
    if root_doc_name(&s) {
        return true;
    }
    match find_last_sep(&s) {
        Some(i) => {
            let last = subrange_vec(&s, i + 1, s.len());
            assert(last@ =~= s@.skip(i + 1));
            root_doc_name(&last)
        },
        None => false,
    }
}

pub fn starts_with_prose_dir(rel_path: &str) -> (b: bool)
    ensures
        b == prose_dir(rel_path@),
{
    let s = str_chars(rel_path);
    starts_with_lit(&s, "docs/") || starts_with_lit(&s, "docs\\") || starts_with_lit(&s, "notes/")
        || starts_with_lit(&s, "notes\\")
}

/// Convention prose: a `README.md` / `CHANGELOG.md` / `ARCHITECTURE.md` /
/// `CONTRIBUTING.md` at any depth, or anything under `docs/` or `notes/`.
/// Case-sensitive.
pub fn is_convention_path(rel_path: &str) -> (b: bool)
    ensures
        b == convention_path(rel_path@),
{
    matches_root_doc_file(rel_path) || starts_with_prose_dir(rel_path)
}

// ---------------------------------------------------------------------
// Frontmatter directive
// ---------------------------------------------------------------------

/// Directive named by a normalised value.
pub open spec fn directive_for_value(v: Seq<char>) -> FrontmatterDirective {
    if v == "rag"@ || v == "true"@ {
        FrontmatterDirective::Rag
    } else if v == "false"@ || v == "off"@ || v == "no"@ {
        FrontmatterDirective::Disabled
    } else {
        FrontmatterDirective::Absent
    }
}

/// The value text after `standardoc:`, trimmed, unquoted and lower-cased.
pub open spec fn directive_value(rest: Seq<char>) -> Seq<char> {
    ascii_lower_seq(trim_matches(trim_matches(trim(rest), '"'), '\''))
}

/// Directive of the first line (in order) whose trimmed start begins
/// with `standardoc:`; `Absent` when there is none.
pub open spec fn first_directive(ls: Seq<Seq<char>>) -> FrontmatterDirective
    decreases ls.len(),
{
    if ls.len() == 0 {
        FrontmatterDirective::Absent
    } else if starts_with(trim_start(ls[0]), "standardoc:"@) {
        directive_for_value(directive_value(trim_start(ls[0]).skip(11)))
    } else {
        first_directive(ls.drop_first())
    }
}

pub open spec fn directive_of(frontmatter_body: Seq<char>) -> FrontmatterDirective {
    first_directive(lines(frontmatter_body))
}

fn directive_for_value_exec(v: &[char]) -> (d: FrontmatterDirective)
    ensures
        d == directive_for_value(v@),
{
    if eq_lit(v, "rag") || eq_lit(v, "true") {
        FrontmatterDirective::Rag
    } else if eq_lit(v, "false") || eq_lit(v, "off") || eq_lit(v, "no") {
        FrontmatterDirective::Disabled
    } else {
        FrontmatterDirective::Absent
    }
}

/// Reads the `standardoc:` directive out of a frontmatter body: the first
/// line starting (after indentation) with `standardoc:` decides; its value
/// is trimmed, stripped of `"` and `'` quotes and lower-cased. `rag` /
/// `true` opt in, `false` / `off` / `no` opt out, anything else is absent.
pub fn parse_directive(frontmatter_body: &str) -> (d: FrontmatterDirective)
    ensures
        d == directive_of(frontmatter_body@),
{
    let s = str_chars(frontmatter_body);
    let ls = lines_of(&s);
    let ghost all = views(ls@);
    let mut i: usize = 0;
    assert(all.skip(0) =~= all);
    while i < ls.len()
        invariant
            i <= ls.len(),
            all == views(ls@),
            all == lines(frontmatter_body@),
            first_directive(all) == first_directive(all.skip(i as int)),
        decreases ls.len() - i,
    {
        let t = trim_start_vec(&ls[i]);
        assert(all.skip(i as int)[0] == ls@[i as int]@);
        if starts_with_lit(&t, "standardoc:") {
            proof {
                reveal_strlit("standardoc:");
            }
            let rest = subrange_vec(&t, 11, t.len());
            let a = trim_vec(&rest);
            let b = trim_matches_vec(&a, '"');
            let c = trim_matches_vec(&b, '\'');
            let v = ascii_lower_vec(&c);
            assert(rest@ =~= t@.skip(11));
            assert("standardoc:"@.len() == 11);
            assert(all.skip(i as int).len() > 0);
            assert(trim_start(all.skip(i as int)[0]) == t@);
            assert(first_directive(all.skip(i as int)) == directive_for_value(directive_value(t@.skip(11))));
            assert(v@ == directive_value(t@.skip(11)));
            assert(all == lines(frontmatter_body@));
            return directive_for_value_exec(&v);
        }
        assert(all.skip(i as int).drop_first() =~= all.skip(i + 1));
        i += 1;
    }
    FrontmatterDirective::Absent
}

// ---------------------------------------------------------------------
// Indexing decisions
// ---------------------------------------------------------------------

/// Discovery verdict for one markdown file that survived the ignore
/// filters: convention paths unless opted out, other paths only when
/// opted in.
pub open spec fn prose_selected(convention: bool, directive: FrontmatterDirective) -> bool {
    directive != FrontmatterDirective::Disabled && (convention || directive == FrontmatterDirective::Rag)
}

/// Whether a discovered `.md` file is handed to the retrieval pipeline.
pub fn select_prose_source(rel_path: &str, skipped: bool, directive: FrontmatterDirective) -> (b: bool)
    ensures
        b == (!skipped && prose_selected(convention_path(rel_path@), directive)),
{
    if skipped {
        return false;
    }
    if directive == FrontmatterDirective::Disabled {
        return false;
    }
    is_convention_path(rel_path) || directive == FrontmatterDirective::Rag
}

/// Whether the prose watcher indexes a changed file: paths under the
/// documentation conventions unless their frontmatter says `rag: false`,
/// other paths only when it says `rag: true`.
pub fn should_index(rel_path: &str, directive: FrontmatterDirective) -> (b: bool)
    ensures
        b == prose_selected(convention_path(rel_path@), directive),
{
    if is_convention_path(rel_path) {
        directive != FrontmatterDirective::Disabled
    } else {
        directive == FrontmatterDirective::Rag
    }
}

// ---------------------------------------------------------------------
// Frontmatter scan
// ---------------------------------------------------------------------

/// Bytes of the file's opening scanned for a frontmatter block.
pub const FRONTMATTER_SCAN_BYTES: usize = 4096;

/// UTF-8 length of one character.
pub open spec fn utf8_len(c: char) -> nat {
    if (c as u32) < 0x80 {
        1
    } else if (c as u32) < 0x800 {
        2
    } else if (c as u32) < 0x10000 {
        3
    } else {
        4
    }
}

/// UTF-8 length of a text.
pub open spec fn utf8_size(s: Seq<char>) -> nat
    decreases s.len(),
{
    if s.len() == 0 {
        0
    } else {
        utf8_size(s.drop_last()) + utf8_len(s.last())
    }
}

/// The text without its trailing `\r` and `\n` characters.
pub open spec fn trim_crlf(s: Seq<char>) -> Seq<char>
    decreases s.len(),
{
    if s.len() > 0 && (s.last() == '\r' || s.last() == '\n') {
        trim_crlf(s.drop_last())
    } else {
        s
    }
}

/// The frontmatter body gathered from the lines read (each with its line
/// terminator) once `total` bytes were read: `None` when the first line
/// is not the `---` fence. Reading stops at the closing fence, at an
/// empty read (end of file) or once the scanned bytes reach the limit.
pub open spec fn fm_scan(ls: Seq<Seq<char>>, i: int, total: nat, first: bool, head: Seq<char>) -> Option<Seq<char>>
    decreases ls.len() - i,
{
    if i < 0 || i >= ls.len() || total >= FRONTMATTER_SCAN_BYTES || ls[i].len() == 0 {
        Some(head)
    } else if first {
        if trim_crlf(ls[i]) != "---"@ {
            None
        } else {
            fm_scan(ls, i + 1, total + utf8_size(ls[i]), false, head)
        }
    } else if trim_crlf(ls[i]) == "---"@ {
        Some(head)
    } else {
        fm_scan(ls, i + 1, total + utf8_size(ls[i]), false, head + ls[i])
    }
}

/// Directive of a file whose opening lines are `ls`.
pub open spec fn directive_of_lines(ls: Seq<Seq<char>>) -> FrontmatterDirective {
    match fm_scan(ls, 0, 0, true, Seq::empty()) {
        None => FrontmatterDirective::Absent,
        Some(h) => directive_of(h),
    }
}

fn utf8_size_capped(s: &[char]) -> (n: usize)
    ensures
        n == if utf8_size(s@) < FRONTMATTER_SCAN_BYTES { utf8_size(s@) } else { FRONTMATTER_SCAN_BYTES as nat },
{
    let mut n: usize = 0;
    let mut i: usize = 0;
    while i < s.len() && n < FRONTMATTER_SCAN_BYTES
        invariant
            i <= s.len(),
            n as nat == utf8_size(s@.take(i as int)),
            n <= FRONTMATTER_SCAN_BYTES + 3,
        decreases s.len() - i,
    {
        let c = s[i];
        let w: usize = if (c as u32) < 0x80 {
            1
        } else if (c as u32) < 0x800 {
            2
        } else if (c as u32) < 0x10000 {
            3
        } else {
            4
        };
        assert(s@.take(i + 1).drop_last() =~= s@.take(i as int));
        n = n + w;
        i += 1;
    }
    proof {
        lemma_utf8_size_prefix(s@, i as int);
        if i == s.len() {
            assert(s@.take(i as int) =~= s@);
        }
    }
    if n >= FRONTMATTER_SCAN_BYTES {
        FRONTMATTER_SCAN_BYTES
    } else {
        n
    }
}

proof fn lemma_utf8_size_prefix(s: Seq<char>, i: int)
    requires
        0 <= i <= s.len(),
    ensures
        utf8_size(s.take(i)) <= utf8_size(s),
    decreases s.len() - i,
{
    if i < s.len() {
        lemma_utf8_size_prefix(s, i + 1);
        assert(s.take(i + 1).drop_last() =~= s.take(i));
    } else {
        assert(s.take(i) =~= s);
    }
}

fn trim_crlf_vec(s: &[char]) -> (v: Vec<char>)
    ensures
        v@ == trim_crlf(s@),
{
    let mut k: usize = s.len();
    assert(s@.take(k as int) =~= s@);
    while k > 0 && (s[k - 1] == '\r' || s[k - 1] == '\n')
        invariant
            k <= s.len(),
            trim_crlf(s@) == trim_crlf(s@.take(k as int)),
        decreases k,
    {
        assert(s@.take(k as int).drop_last() =~= s@.take(k - 1));
        k -= 1;
    }
    subrange_vec(s, 0, k)
}

/// The `standardoc:` directive of a markdown file from its opening lines
/// as read (each with its terminator; reading may stop early or go past
/// the scan limit). A file without a leading `---` fence has no directive.
pub fn frontmatter_directive_of(opening_lines: &[String]) -> (d: FrontmatterDirective)
    ensures
        d == directive_of_lines(crate::workspace::string_views(opening_lines@)),
{
    let ghost ls = crate::workspace::string_views(opening_lines@);
    let mut head: Vec<char> = Vec::new();
    let mut total: usize = 0;
    let mut first = true;
    let mut i: usize = 0;
    let ghost mut true_total: nat = 0;
    while i < opening_lines.len() && total < FRONTMATTER_SCAN_BYTES
        invariant
            i <= opening_lines.len(),
            ls == crate::workspace::string_views(opening_lines@),
            total as nat == if true_total < FRONTMATTER_SCAN_BYTES { true_total } else { FRONTMATTER_SCAN_BYTES as nat },
            fm_scan(ls, 0, 0, true, Seq::empty()) == fm_scan(ls, i as int, true_total, first, head@),
        ensures
            fm_scan(ls, 0, 0, true, Seq::empty()) == Some(head@),
        decreases opening_lines.len() - i,
    {
        let line = str_chars(opening_lines[i].as_str());
        assert(ls[i as int] == line@);
        if line.len() == 0 {
            assert(fm_scan(ls, i as int, true_total, first, head@) == Some(head@));
            break;
        }
        let t = trim_crlf_vec(&line);
        let fence = eq_lit(&t, "---");
        let n = utf8_size_capped(&line);
        if first {
            if !fence {
                return FrontmatterDirective::Absent;
            }
            first = false;
        } else {
            if fence {
                assert(fm_scan(ls, i as int, true_total, first, head@) == Some(head@));
                break;
            }
            crate::text::push_all(&mut head, &line);
        }
        proof {
            true_total = true_total + utf8_size(line@);
        }
        total = if total + n >= FRONTMATTER_SCAN_BYTES {
            FRONTMATTER_SCAN_BYTES
        } else {
            total + n
        };
        i += 1;
    }
    let h = crate::text::string_from_chars(head);
    parse_directive(h.as_str())
}

// ---------------------------------------------------------------------
// Markdown paths and the prose watcher
// ---------------------------------------------------------------------

/// The path's extension is `md`, in any ASCII case.
pub open spec fn markdown_path(p: Seq<char>) -> bool {
    crate::paths::extension(p) matches Some(e) && ascii_lower_seq(e) == "md"@
}

pub fn is_markdown_path(path: &str) -> (b: bool)
    ensures
        b == markdown_path(path@),
{
    let p = str_chars(path);
    match crate::paths::extension_of(&p) {
        Some(e) => {
            let l = ascii_lower_vec(&e);
            eq_lit(&l, "md")
        },
        None => false,
    }
}

/// Workspace-relative `/`-separated path of a markdown file under the root.
pub open spec fn md_relative(path: Seq<char>, root: Seq<char>) -> Option<Seq<char>> {
    match crate::paths::path_strip_prefix(path, root) {
        None => None,
        Some(r) => if markdown_path(path) {
            Some(crate::text::replace_char(r, '\\', '/'))
        } else {
            None
        },
    }
}

pub fn to_workspace_relative_md(path: &str, workspace_root: &str) -> (r: Option<String>)
    ensures
        match r {
            Some(s) => md_relative(path@, workspace_root@) == Some(s@),
            None => md_relative(path@, workspace_root@) is None,
        },
{
    let rel = match crate::paths::strip_prefix_str(path, workspace_root) {
        None => return None,
        Some(r) => r,
    };
    if !is_markdown_path(path) {
        return None;
    }
    let c = str_chars(rel.as_str());
    let fixed = crate::text::replace_char_vec(&c, '\\', '/');
    Some(crate::text::string_from_chars(fixed))
}

/// What the prose watcher does for a changed path.
#[derive(Debug, Clone, PartialEq, Eq)]
pub enum RagAction {
    Ignore,
    /// The file is gone: drop its chunks.
    Purge(String),
    /// Re-chunk, re-embed and re-link the file.
    Index(String),
}

/// Routes a changed path: non-markdown or out-of-root paths and filtered
/// paths are ignored; a vanished file is purged; an existing one is
/// indexed when [`should_index`] says so. `directive` is the file's
/// frontmatter directive (read only when it exists).
pub fn rag_event_action(path: &str, workspace_root: &str, skipped: bool, exists: bool, directive: FrontmatterDirective) -> (a: RagAction)
    ensures
        match a {
            RagAction::Ignore => md_relative(path@, workspace_root@) is None || skipped || (exists
                && !prose_selected(convention_path(md_relative(path@, workspace_root@)->0), directive)),
            RagAction::Purge(r) => md_relative(path@, workspace_root@) == Some(r@) && !skipped && !exists,
            RagAction::Index(r) => md_relative(path@, workspace_root@) == Some(r@) && !skipped && exists
                && prose_selected(convention_path(r@), directive),
        },
{
    let rel = match to_workspace_relative_md(path, workspace_root) {
        None => return RagAction::Ignore,
        Some(r) => r,
    };
    if skipped {
        return RagAction::Ignore;
    }
    if !exists {
        return RagAction::Purge(rel);
    }
    if !should_index(rel.as_str(), directive) {
        return RagAction::Ignore;
    }
    RagAction::Index(rel)
}

/// The chunk hashes of a source are unchanged: same count, same hashes
/// in the same order (the embed pass is then skipped).
pub fn hashes_match(a: &[String], b: &[String]) -> (r: bool)
    ensures
        r == (crate::workspace::string_views(a@) == crate::workspace::string_views(b@)),
{
    if a.len() != b.len() {
        proof {
            if crate::workspace::string_views(a@) == crate::workspace::string_views(b@) {
                assert(crate::workspace::string_views(a@).len() == crate::workspace::string_views(b@).len());
            }
        }
        return false;
    }
    let mut i: usize = 0;
    while i < a.len()
        invariant
            i <= a.len(),
            a.len() == b.len(),
            forall|k: int| 0 <= k < i ==> a@[k]@ == b@[k]@,
        decreases a.len() - i,
    {
        if !crate::text::string_eq(&a[i], &b[i]) {
            proof {
                assert(crate::workspace::string_views(a@)[i as int] != crate::workspace::string_views(b@)[i as int]);
            }
            return false;
        }
        i += 1;
    }
    assert(crate::workspace::string_views(a@) =~= crate::workspace::string_views(b@));
    true
}

/// Why a prose source could not be indexed.
#[derive(Debug)]
pub enum RagPipelineError {
    Rag(String),
    Io { path: String, source: String },
}

impl RagPipelineError {
    pub open spec fn spec_message(&self) -> Seq<char> {
        match self {
            RagPipelineError::Rag(e) => "rag store error: "@ + e@,
            RagPipelineError::Io { path, source } => "io error reading "@ + path@ + ": "@ + source@,
        }
    }

    pub fn message(&self) -> (m: String)
        ensures
            m@ == self.spec_message(),
    {
        let mut out: Vec<char> = Vec::new();
        match self {
            RagPipelineError::Rag(e) => {
                crate::text::append_str(&mut out, "rag store error: ");
                crate::text::append_str(&mut out, e.as_str());
            },
            RagPipelineError::Io { path, source } => {
                crate::text::append_str(&mut out, "io error reading ");
                crate::text::append_str(&mut out, path.as_str());
                crate::text::append_str(&mut out, ": ");
                crate::text::append_str(&mut out, source.as_str());
            },
        }
        crate::text::string_from_chars(out)
    }
}

// ---------------------------------------------------------------------
// Re-link after index revisions settle
// ---------------------------------------------------------------------

/// State of the re-link watcher: the last revision acted on, and the
/// revision seen moving that awaits a debounce tick.
pub struct RelinkWatch {
    pub last_seen: u64,
    pub pending: Option<u64>,
}

impl RelinkWatch {
    pub fn new(revision: u64) -> (w: Self)
        ensures
            w.last_seen == revision,
            w.pending is None,
    {
        RelinkWatch { last_seen: revision, pending: None }
    }

    /// A poll observed `revision`: wait a debounce tick when it moved.
    pub fn on_poll(&mut self, revision: u64) -> (debounce: bool)
        ensures
            debounce == (revision != old(self).last_seen),
            final(self).last_seen == old(self).last_seen,
            final(self).pending == (if debounce { Some(revision) } else { None }),
    {
        if revision == self.last_seen {
            self.pending = None;
            false
        } else {
            self.pending = Some(revision);
            true
        }
    }

    /// After the debounce tick the revision reads `revision`: re-link
    /// only when it did not move meanwhile. Either way it is the new
    /// reference.
    pub fn on_settled(&mut self, revision: u64) -> (relink: bool)
        ensures
            relink == (old(self).pending == Some(revision)),
            final(self).last_seen == revision,
            final(self).pending is None,
    {
        let relink = match self.pending {
            Some(p) => p == revision,
            None => false,
        };
        self.last_seen = revision;
        self.pending = None;
        relink
    }
}

} // verus!
