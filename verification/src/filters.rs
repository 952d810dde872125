//! Ignore files: the preview of what one gitignore-syntax line would
//! exclude, and the stack of `.stdignore` layers that decides whether a
//! workspace path is skipped.
//!
//! Walks and file reads are the caller's; lines are compiled and matched
//! by the `ignore` crate; this module decides which layer applies to a
//! path, which one wins, and which entries are counted and reported.
use vstd::prelude::*;
use crate::text::{
    contains_sub, push_all, replace_char, replace_char_vec, starts_with, str_chars,
    string_from_chars, trim,
};

verus! {

/// Most walk entries a preview scans.
pub const PATTERN_PREVIEW_WALK_CAP: usize = 50_000;

/// One entry of the workspace walk: its path relative to the root
/// (empty for the root itself) and whether it is a directory.
#[derive(Debug, Clone)]
pub struct WalkEntry {
    pub rel: String,
    pub is_dir: bool,
}

/// What a pattern line would match.
#[derive(Debug, Clone, PartialEq, Eq)]
pub struct PatternPreview {
    pub pattern: String,
    /// The first `limit` matched paths, `/`-separated.
    pub matches: Vec<String>,
    pub total_count: usize,
    /// More paths matched than were returned.
    pub truncated: bool,
    /// The walk hit [`PATTERN_PREVIEW_WALK_CAP`]; `total_count` is a lower bound.
    pub walk_truncated: bool,
}

/// The pattern line could not be compiled.
#[derive(Debug, Clone, PartialEq, Eq)]
pub enum PatternPreviewError {
    InvalidPattern(String),
}

impl PatternPreviewError {
    pub open spec fn spec_message(&self) -> Seq<char> {
        match self {
            PatternPreviewError::InvalidPattern(e) => "invalid .stdignore pattern: "@ + e@,
        }
    }

    pub fn message(&self) -> (m: String)
        ensures
            m@ == self.spec_message(),
    {
        let mut out: Vec<char> = Vec::new();
        match self {
            PatternPreviewError::InvalidPattern(e) => {
                crate::text::append_str(&mut out, "invalid .stdignore pattern: ");
                crate::text::append_str(&mut out, e.as_str());
            },
        }
        string_from_chars(out)
    }
}

/// Whether `GitignoreBuilder::new(root)` accepts `add_line(None, line)`
/// and builds.
pub uninterp spec fn gitignore_line_accepted(root: Seq<char>, line: Seq<char>) -> bool;

/// The error text `ignore` reports for a line it does not accept.
pub uninterp spec fn gitignore_line_error(root: Seq<char>, line: Seq<char>) -> Seq<char>;

/// Whether the matcher built from `line` at `root` answers `Ignore` for
/// `path` (or one of its parents) via `matched_path_or_any_parents`.
pub uninterp spec fn gitignore_ignores(root: Seq<char>, line: Seq<char>, path: Seq<char>, is_dir: bool) -> bool;

/// A path the matcher can take without panicking: once a leading `./`
/// is dropped it is relative and holds no empty component.
pub open spec fn matchable_path(p: Seq<char>) -> bool {
    let q = if starts_with(p, "./"@) { p.skip(2) } else { p };
    !starts_with(q, "/"@) && !contains_sub(q, "//"@)
}

pub open spec fn entry_views(s: Seq<WalkEntry>) -> Seq<(Seq<char>, bool)> {
    s.map_values(|e: WalkEntry| (e.rel@, e.is_dir))
}

/// Calls `ignore::gitignore::GitignoreBuilder` (`new`, `add_line`,
/// `build`) on one line, then `Gitignore::matched_path_or_any_parents`
/// on every entry. Claims: an error exactly when the line is not
/// accepted, with the crate's error text; else one verdict per entry,
/// each the named match of that entry. `matched_path_or_any_parents`
/// asserts that the stripped path has no root; `requires` keeps such
/// paths out.
#[verifier::external_body]
fn match_entries(root: &str, line: &str, entries: &[WalkEntry]) -> (r: Result<Vec<bool>, String>)
    requires
        forall|i: int| 0 <= i < entries@.len() ==> matchable_path(#[trigger] entries@[i].rel@),
    ensures
        match r {
            Ok(v) => gitignore_line_accepted(root@, line@) && v@.len() == entries@.len() && forall|i: int|
                0 <= i < v@.len() ==> #[trigger] v@[i] == gitignore_ignores(
                    root@,
                    line@,
                    entries@[i].rel@,
                    entries@[i].is_dir,
                ),
            Err(e) => !gitignore_line_accepted(root@, line@) && e@ == gitignore_line_error(root@, line@),
        },
{
    let mut builder = ignore::gitignore::GitignoreBuilder::new(root);
    if let Err(e) = builder.add_line(None, line) {
        return Err(e.to_string());
    }
    let matcher = builder.build().map_err(|e| e.to_string())?;
    Ok(entries
        .iter()
        .map(|e| matches!(matcher.matched_path_or_any_parents(e.rel.as_str(), e.is_dir), ignore::Match::Ignore(_)))
        .collect())
}

/// The line really compiled: `None` for blank lines and comments.
pub open spec fn effective_line(pattern: Seq<char>) -> Option<Seq<char>> {
    let t = trim(pattern);
    if t.len() == 0 || starts_with(t, "#"@) {
        None
    } else {
        Some(t)
    }
}

/// The walk entries scanned.
pub open spec fn scanned(walk: Seq<(Seq<char>, bool)>) -> Seq<(Seq<char>, bool)> {
    if walk.len() > PATTERN_PREVIEW_WALK_CAP {
        walk.take(PATTERN_PREVIEW_WALK_CAP as int)
    } else {
        walk
    }
}

/// The matched paths, in walk order, `/`-separated. The root itself is
/// never reported.
pub open spec fn matched_paths(root: Seq<char>, line: Seq<char>, es: Seq<(Seq<char>, bool)>) -> Seq<Seq<char>>
    decreases es.len(),
{
    if es.len() == 0 {
        Seq::empty()
    } else {
        let init = matched_paths(root, line, es.drop_last());
        let e = es.last();
        if e.0.len() > 0 && gitignore_ignores(root, line, e.0, e.1) {
            init.push(replace_char(e.0, '\\', '/'))
        } else {
            init
        }
    }
}

/// Previews which walk entries the single gitignore-syntax `pattern`
/// would exclude, reporting at most `limit` of them.
pub fn preview_pattern_matches(workspace_root: &str, pattern: &str, walk: &[WalkEntry], limit: usize) -> (r: Result<PatternPreview, PatternPreviewError>)
    requires
        forall|i: int| 0 <= i < walk@.len() ==> matchable_path(#[trigger] walk@[i].rel@),
    ensures
        match effective_line(pattern@) {
            None => r matches Ok(p) && p.pattern@ == pattern@ && p.matches@.len() == 0 && p.total_count == 0
                && !p.truncated && !p.walk_truncated,
            Some(line) => if gitignore_line_accepted(workspace_root@, line) {
                r matches Ok(p) && {
                    let all = matched_paths(workspace_root@, line, scanned(entry_views(walk@)));
                    &&& p.pattern@ == pattern@
                    &&& p.total_count == all.len()
                    &&& crate::workspace::string_views(p.matches@) == (if all.len() <= limit {
                        all
                    } else {
                        all.take(limit as int)
                    })
                    &&& p.truncated == (all.len() > limit)
                    &&& p.walk_truncated == (walk@.len() > PATTERN_PREVIEW_WALK_CAP)
                }
            } else {
                r matches Err(PatternPreviewError::InvalidPattern(e)) && e@ == gitignore_line_error(
                    workspace_root@,
                    line,
                )
            },
        },
{
    let p = str_chars(pattern);
    let t = crate::text::trim_vec(&p);
    if t.len() == 0 || crate::text::starts_with_lit(&t, "#") {
        return Ok(PatternPreview {
            pattern: string_from_chars(p),
            matches: Vec::new(),
            total_count: 0,
            truncated: false,
            walk_truncated: false,
        });
    }
    let line = string_from_chars(t);
    let n = if walk.len() > PATTERN_PREVIEW_WALK_CAP {
        PATTERN_PREVIEW_WALK_CAP
    } else {
        walk.len()
    };
    let entries = vstd::slice::slice_subrange(walk, 0, n);
    let ghost es = entry_views(entries@);
    assert(es =~= scanned(entry_views(walk@)));
    let verdicts = match match_entries(workspace_root, line.as_str(), entries) {
        Ok(v) => v,
        Err(e) => return Err(PatternPreviewError::InvalidPattern(e)),
    };
    let mut hits: Vec<String> = Vec::new();
    let mut total: usize = 0;
    let mut i: usize = 0;
    assert(es.take(0) =~= Seq::<(Seq<char>, bool)>::empty());
    while i < n
        invariant
            i <= n,
            n == entries@.len(),
            verdicts@.len() == n,
            es == entry_views(entries@),
            forall|k: int| 0 <= k < n ==> #[trigger] verdicts@[k] == gitignore_ignores(
                workspace_root@,
                line@,
                entries@[k].rel@,
                entries@[k].is_dir,
            ),
            total == matched_paths(workspace_root@, line@, es.take(i as int)).len(),
            total <= i,
            crate::workspace::string_views(hits@) == (if total <= limit {
                matched_paths(workspace_root@, line@, es.take(i as int))
            } else {
                matched_paths(workspace_root@, line@, es.take(i as int)).take(limit as int)
            }),
        decreases n - i,
    {
        let e = &entries[i];
        let ghost prev = matched_paths(workspace_root@, line@, es.take(i as int));
        assert(es.take(i + 1).drop_last() =~= es.take(i as int));
        assert(es.take(i + 1).last() == (e.rel@, e.is_dir));
        if !e.rel.as_str().is_empty() && verdicts[i] {
            let ghost next = prev.push(replace_char(e.rel@, '\\', '/'));
            let ghost hv = crate::workspace::string_views(hits@);
            if hits.len() < limit {
                let c = str_chars(e.rel.as_str());
                let fixed = replace_char_vec(&c, '\\', '/');
                hits.push(string_from_chars(fixed));
                assert(crate::workspace::string_views(hits@) =~= hv.push(replace_char(e.rel@, '\\', '/')));
            }
            total = total + 1;
            proof {
                if total <= limit {
                    assert(crate::workspace::string_views(hits@) =~= next);
                } else {
                    assert(next.take(limit as int) =~= prev.take(limit as int));
                    if total - 1 <= limit {
                        assert(prev.take(limit as int) =~= prev);
                    }
                }
            }
        } else {
            assert(e.rel@.len() == 0 || !gitignore_ignores(workspace_root@, line@, e.rel@, e.is_dir)) by {
                assert(verdicts@[i as int] == gitignore_ignores(workspace_root@, line@, entries@[i as int].rel@, entries@[i as int].is_dir));
            }
        }
        i += 1;
    }
    assert(es.take(n as int) =~= es);
    Ok(PatternPreview {
        pattern: string_from_chars(p),
        matches: hits,
        total_count: total,
        truncated: total > limit,
        walk_truncated: walk.len() > PATTERN_PREVIEW_WALK_CAP,
    })
}

// ---------------------------------------------------------------------
// Layered ignore files
// ---------------------------------------------------------------------

/// What one ignore layer says about a path.
#[derive(Debug, Clone, Copy, PartialEq, Eq, Structural)]
pub enum LayerVerdict {
    Ignore,
    Whitelist,
    /// No pattern matched, or the path is outside the layer's directory.
    NoOpinion,
}

/// The deepest layer with an opinion decides (closest parent wins);
/// `layers` runs from the shallowest to the deepest.
pub open spec fn cascade(layers: Seq<LayerVerdict>) -> bool
    decreases layers.len(),
{
    if layers.len() == 0 {
        false
    } else {
        match layers.last() {
            LayerVerdict::Ignore => true,
            LayerVerdict::Whitelist => false,
            LayerVerdict::NoOpinion => cascade(layers.drop_last()),
        }
    }
}

/// Whether a workspace-relative path is excluded, from the verdicts of
/// the ignore layers (shallowest first). The empty path is never excluded.
pub fn is_ignored_by_layers(rel_path: &str, layers: &[LayerVerdict]) -> (b: bool)
    ensures
        b == (rel_path@.len() > 0 && cascade(layers@)),
{
    if rel_path.is_empty() {
        return false;
    }
    let mut i: usize = layers.len();
    assert(layers@.take(layers@.len() as int) =~= layers@);
    while i > 0
        invariant
            i <= layers.len(),
            rel_path@.len() > 0,
            cascade(layers@) == cascade(layers@.take(i as int)),
        decreases i,
    {
        assert(layers@.take(i as int).last() == layers@[i - 1]);
        assert(layers@.take(i as int).drop_last() =~= layers@.take(i - 1));
        match layers[i - 1] {
            LayerVerdict::Ignore => return true,
            LayerVerdict::Whitelist => return false,
            LayerVerdict::NoOpinion => {},
        }
        i -= 1;
    }
    false
}


// ---------------------------------------------------------------------
// Filter reloads
// ---------------------------------------------------------------------

/// The paths whose skip verdict goes from `from` to `to` when the
/// filters are reloaded, in order.
pub open spec fn flipped(paths: Seq<Seq<char>>, old_skip: Seq<bool>, new_skip: Seq<bool>, from: bool, to: bool) -> Seq<Seq<char>>
    decreases paths.len(),
{
    if paths.len() == 0 {
        Seq::empty()
    } else {
        let rest = flipped(paths.drop_last(), old_skip.drop_last(), new_skip.drop_last(), from, to);
        if old_skip.last() == from && new_skip.last() == to {
            rest.push(paths.last())
        } else {
            rest
        }
    }
}

fn select_flipped(paths: &Vec<String>, old_skip: &Vec<bool>, new_skip: &Vec<bool>, from: bool, to: bool) -> (r: Vec<String>)
    requires
        old_skip.len() == paths.len(),
        new_skip.len() == paths.len(),
    ensures
        crate::workspace::string_views(r@) == flipped(
            crate::workspace::string_views(paths@),
            old_skip@,
            new_skip@,
            from,
            to,
        ),
{
    let ghost pv = crate::workspace::string_views(paths@);
    let mut r: Vec<String> = Vec::new();
    let mut i: usize = 0;
    while i < paths.len()
        invariant
            i <= paths.len(),
            old_skip.len() == paths.len(),
            new_skip.len() == paths.len(),
            pv == crate::workspace::string_views(paths@),
            crate::workspace::string_views(r@) == flipped(
                pv.take(i as int),
                old_skip@.take(i as int),
                new_skip@.take(i as int),
                from,
                to,
            ),
        decreases paths.len() - i,
    {
        let ghost before = crate::workspace::string_views(r@);
        assert(pv.take(i + 1).drop_last() =~= pv.take(i as int));
        assert(old_skip@.take(i + 1).drop_last() =~= old_skip@.take(i as int));
        assert(new_skip@.take(i + 1).drop_last() =~= new_skip@.take(i as int));
        if old_skip[i] == from && new_skip[i] == to {
            r.push(paths[i].clone());
            assert(crate::workspace::string_views(r@) =~= before.push(paths@[i as int]@));
        }
        i += 1;
    }
    assert(pv.take(paths.len() as int) =~= pv);
    assert(old_skip@.take(paths.len() as int) =~= old_skip@);
    assert(new_skip@.take(paths.len() as int) =~= new_skip@);
    r
}

/// Indexed paths that the reloaded filters exclude and the previous ones
/// did not (reported for purging). `old_skip[i]` / `new_skip[i]` are the
/// two verdicts on `paths[i]`.
pub fn newly_excluded(paths: &Vec<String>, old_skip: &Vec<bool>, new_skip: &Vec<bool>) -> (r: Vec<String>)
    requires
        old_skip.len() == paths.len(),
        new_skip.len() == paths.len(),
    ensures
        crate::workspace::string_views(r@) == flipped(
            crate::workspace::string_views(paths@),
            old_skip@,
            new_skip@,
            false,
            true,
        ),
{
    select_flipped(paths, old_skip, new_skip, false, true)
}

/// Workspace paths that the previous filters excluded and the reloaded
/// ones allow (re-indexed).
pub fn newly_allowed(paths: &Vec<String>, old_skip: &Vec<bool>, new_skip: &Vec<bool>) -> (r: Vec<String>)
    requires
        old_skip.len() == paths.len(),
        new_skip.len() == paths.len(),
    ensures
        crate::workspace::string_views(r@) == flipped(
            crate::workspace::string_views(paths@),
            old_skip@,
            new_skip@,
            true,
            false,
        ),
{
    select_flipped(paths, old_skip, new_skip, true, false)
}

// ---------------------------------------------------------------------
// Pattern blocks
// ---------------------------------------------------------------------

/// The lines of a pattern block that compile, trimmed, in order.
pub open spec fn effective_lines(ls: Seq<Seq<char>>) -> Seq<Seq<char>>
    decreases ls.len(),
{
    if ls.len() == 0 {
        Seq::empty()
    } else {
        match effective_line(ls.last()) {
            Some(t) => effective_lines(ls.drop_last()).push(t),
            None => effective_lines(ls.drop_last()),
        }
    }
}

/// The pattern lines of an ignore block (such as the one of the
/// workspace configuration file): each line trimmed, blank lines and
/// `#` comments left out.
pub fn pattern_lines(patterns: &str) -> (v: Vec<String>)
    ensures
        crate::workspace::string_views(v@) == effective_lines(crate::text::lines(patterns@)),
{
    let chars = str_chars(patterns);
    let ls = crate::text::lines_of(&chars);
    let ghost lv = crate::text::views(ls@);
    let mut v: Vec<String> = Vec::new();
    let mut i: usize = 0;
    while i < ls.len()
        invariant
            i <= ls.len(),
            lv == crate::text::views(ls@),
            crate::workspace::string_views(v@) == effective_lines(lv.take(i as int)),
        decreases ls.len() - i,
    {
        let ghost before = crate::workspace::string_views(v@);
        assert(lv.take(i + 1).drop_last() =~= lv.take(i as int));
        assert(lv.take(i + 1).last() == ls@[i as int]@);
        let t = crate::text::trim_vec(&ls[i]);
        if !(t.len() == 0 || crate::text::starts_with_lit(&t, "#")) {
            let line = string_from_chars(t);
            v.push(line);
            assert(crate::workspace::string_views(v@) =~= before.push(line@));
        }
        i += 1;
    }
    assert(lv.take(ls.len() as int) =~= lv);
    v
}

// ---------------------------------------------------------------------
// The ignore-file stack
// ---------------------------------------------------------------------

/// Whether `ignore`'s `GitignoreBuilder`, rooted at `root`, accepts every
/// one of `lines` (`add_line`) and builds a matcher from them (`build`).
pub uninterp spec fn gitignore_lines_accepted(root: Seq<char>, lines: Seq<Seq<char>>) -> bool;

/// What the matcher built from `lines` at `root` answers for `path`
/// (`Gitignore::matched_path_or_any_parents`): 0 no match, 1 ignore,
/// 2 whitelist.
pub uninterp spec fn gitignore_layer_match(root: Seq<char>, lines: Seq<Seq<char>>, path: Seq<char>, is_dir: bool) -> int;

/// The verdict a match code stands for.
pub open spec fn verdict_of_code(code: int) -> LayerVerdict {
    if code == 1 {
        LayerVerdict::Ignore
    } else if code == 2 {
        LayerVerdict::Whitelist
    } else {
        LayerVerdict::NoOpinion
    }
}

/// Builds a gitignore matcher rooted at `root` from `lines` with
/// `ignore::gitignore::GitignoreBuilder` (`new`, `add_line` per line,
/// `build`) and asks `Gitignore::matched_path_or_any_parents` about the
/// relative path `rel`. Claims: an error exactly when the lines are not
/// accepted; else the named match of `rel`. `matched_path_or_any_parents`
/// asserts that the stripped path has no root; `requires` keeps such
/// paths out.
#[verifier::external_body]
fn layer_match(root: &str, lines: &Vec<String>, rel: &str, is_dir: bool) -> (r: Result<LayerVerdict, String>)
    requires
        matchable_path(rel@),
    ensures
        match r {
            Ok(v) => gitignore_lines_accepted(root@, crate::workspace::string_views(lines@))
                && v == verdict_of_code(
                gitignore_layer_match(root@, crate::workspace::string_views(lines@), rel@, is_dir),
            ),
            Err(_) => !gitignore_lines_accepted(root@, crate::workspace::string_views(lines@)),
        },
{
    let mut builder = ignore::gitignore::GitignoreBuilder::new(root);
    for line in lines {
        builder.add_line(None, line).map_err(|e| e.to_string())?;
    }
    let matcher = builder.build().map_err(|e| e.to_string())?;
    Ok(match matcher.matched_path_or_any_parents(rel, is_dir) {
        ignore::Match::None => LayerVerdict::NoOpinion,
        ignore::Match::Ignore(_) => LayerVerdict::Ignore,
        ignore::Match::Whitelist(_) => LayerVerdict::Whitelist,
    })
}

/// What one layer says about `rel` (relative to the layer's root): a
/// layer whose lines do not compile has no say, nor does one asked about
/// a path the matcher cannot take.
pub open spec fn layer_says(root: Seq<char>, lines: Seq<Seq<char>>, rel: Seq<char>, is_dir: bool) -> LayerVerdict {
    if matchable_path(rel) && gitignore_lines_accepted(root, lines) {
        verdict_of_code(gitignore_layer_match(root, lines, rel, is_dir))
    } else {
        LayerVerdict::NoOpinion
    }
}

fn layer_says_exec(root: &str, lines: &Vec<String>, rel: &str, is_dir: bool) -> (v: LayerVerdict)
    ensures
        v == layer_says(root@, crate::workspace::string_views(lines@), rel@, is_dir),
{
    if !is_matchable(rel) {
        return LayerVerdict::NoOpinion;
    }
    match layer_match(root, lines, rel, is_dir) {
        Ok(v) => v,
        Err(_) => LayerVerdict::NoOpinion,
    }
}

/// Whether the gitignore matcher can take `p` (see [`matchable_path`]).
pub fn is_matchable(p: &str) -> (b: bool)
    ensures
        b == matchable_path(p@),
{
    let c = str_chars(p);
    proof {
        reveal_strlit("./");
    }
    let q = if crate::text::starts_with_lit(&c, "./") {
        crate::text::subrange_vec(&c, 2, c.len())
    } else {
        crate::text::chars_to_vec(&c)
    };
    proof {
        if starts_with(c@, "./"@) {
            assert(q@ =~= c@.skip(2));
        }
    }
    !crate::text::starts_with_lit(&q, "/") && !crate::text::contains_lit(&q, "//")
}

/// Whether the walk that looks for nested ignore files skips a
/// workspace-relative entry: the root layer's lines ignore it (or one of
/// its parents). Without root lines nothing is skipped.
pub fn descent_pruned(workspace_root: &str, root_lines: &Vec<String>, rel: &str, is_dir: bool) -> (b: bool)
    ensures
        b == (layer_says(workspace_root@, crate::workspace::string_views(root_lines@), rel@, is_dir)
            == LayerVerdict::Ignore),
{
    let v = layer_says_exec(workspace_root, root_lines, rel, is_dir);
    match v {
        LayerVerdict::Ignore => true,
        _ => false,
    }
}

/// One ignore file: the workspace-relative directory it sits in (empty
/// for the workspace root, `/`-separated) and its lines.
#[derive(Debug, Clone, PartialEq, Eq)]
pub struct IgnoreLayer {
    pub dir: String,
    pub lines: Vec<String>,
}

pub type LayerView = (Seq<char>, Seq<Seq<char>>);

pub open spec fn layer_view(l: IgnoreLayer) -> LayerView {
    (l.dir@, crate::workspace::string_views(l.lines@))
}

pub open spec fn layer_views(s: Seq<IgnoreLayer>) -> Seq<LayerView> {
    s.map_values(|l: IgnoreLayer| layer_view(l))
}

/// Number of `/` in a text.
pub open spec fn slash_count(s: Seq<char>) -> nat
    decreases s.len(),
{
    if s.len() == 0 {
        0
    } else if s.last() == '/' {
        slash_count(s.drop_last()) + 1
    } else {
        slash_count(s.drop_last())
    }
}

/// Number of components of a workspace-relative directory.
pub open spec fn dir_depth(dir: Seq<char>) -> nat {
    if dir.len() == 0 {
        0
    } else {
        slash_count(dir) + 1
    }
}

/// The root a layer's matcher is built at.
pub open spec fn layer_root(workspace_root: Seq<char>, dir: Seq<char>) -> Seq<char> {
    if dir.len() == 0 {
        workspace_root
    } else {
        crate::lockfiles::join_path(workspace_root, dir)
    }
}

/// `rel` seen from inside `dir`: the rest of the path when it lies in
/// that directory (or is it), else `None`.
pub open spec fn within_dir(rel: Seq<char>, dir: Seq<char>) -> Option<Seq<char>> {
    if dir.len() == 0 {
        Some(rel)
    } else if rel == dir {
        Some(Seq::empty())
    } else if starts_with(rel, dir + "/"@) {
        Some(rel.skip((dir.len() + 1) as int))
    } else {
        None
    }
}

/// What a layer of the stack says about the workspace-relative file `rel`.
pub open spec fn stack_layer_says(workspace_root: Seq<char>, l: LayerView, rel: Seq<char>) -> LayerVerdict {
    match within_dir(rel, l.0) {
        None => LayerVerdict::NoOpinion,
        Some(r) => layer_says(layer_root(workspace_root, l.0), l.1, r, false),
    }
}

/// The verdicts of every layer, shallowest first.
pub open spec fn stack_verdicts(workspace_root: Seq<char>, layers: Seq<LayerView>, rel: Seq<char>) -> Seq<LayerVerdict> {
    layers.map_values(|l: LayerView| stack_layer_says(workspace_root, l, rel))
}

/// The ignore files of a workspace, ordered by depth (shallowest first,
/// discovery order among equals); deeper files override shallower ones.
pub struct IgnoreStack {
    workspace_root: String,
    layers: Vec<IgnoreLayer>,
}

fn dir_depth_exec(dir: &String) -> (d: u128)
    ensures
        d as nat == dir_depth(dir@),
{
    let c = str_chars(dir.as_str());
    if c.len() == 0 {
        return 0;
    }
    let mut n: usize = 0;
    let mut i: usize = 0;
    while i < c.len()
        invariant
            i <= c.len(),
            n as nat == slash_count(c@.take(i as int)),
            n <= i,
        decreases c.len() - i,
    {
        assert(c@.take(i + 1).drop_last() =~= c@.take(i as int));
        if c[i] == '/' {
            n += 1;
        }
        i += 1;
    }
    assert(c@.take(c.len() as int) =~= c@);
    n as u128 + 1
}

impl IgnoreStack {
    pub closed spec fn root_view(&self) -> Seq<char> {
        self.workspace_root@
    }

    pub closed spec fn layers_view(&self) -> Seq<LayerView> {
        layer_views(self.layers@)
    }

    /// A stack with no ignore file yet.
    pub fn new(workspace_root: String) -> (s: Self)
        ensures
            s.root_view() == workspace_root@,
            s.layers_view() == Seq::<LayerView>::empty(),
    {
        let s = IgnoreStack { workspace_root, layers: Vec::new() };
        assert(s.layers_view() =~= Seq::<LayerView>::empty());
        s
    }

    /// Adds an ignore file, after every layer no deeper than it (so the
    /// stack stays ordered by depth, earlier additions first among equals).
    pub fn add_layer(&mut self, layer: IgnoreLayer)
        ensures
            final(self).root_view() == old(self).root_view(),
            exists|pos: int|
                #![trigger old(self).layers_view().insert(pos, layer_view(layer))]
                0 <= pos <= old(self).layers_view().len()
                && (forall|j: int| 0 <= j < pos ==> dir_depth(#[trigger] old(self).layers_view()[j].0) <= dir_depth(layer.dir@))
                && (pos < old(self).layers_view().len() ==> dir_depth(old(self).layers_view()[pos].0) > dir_depth(layer.dir@))
                && final(self).layers_view() == old(self).layers_view().insert(pos, layer_view(layer)),
    {
        let ghost old_v = layer_views(self.layers@);
        let d = dir_depth_exec(&layer.dir);
        let mut pos: usize = 0;
        let mut found = false;
        while pos < self.layers.len() && !found
            invariant
                pos <= self.layers.len(),
                old_v == layer_views(self.layers@),
                d as nat == dir_depth(layer.dir@),
                forall|j: int| 0 <= j < pos ==> dir_depth(#[trigger] old_v[j].0) <= d,
                found ==> pos < self.layers.len() && dir_depth(old_v[pos as int].0) > d,
            decreases self.layers.len() - pos + (if found { 0int } else { 1int }),
        {
            let dj = dir_depth_exec(&self.layers[pos].dir);
            if dj > d {
                found = true;
            } else {
                pos += 1;
            }
        }
        let ghost lv = layer_view(layer);
        self.layers.insert(pos, layer);
        assert(layer_views(self.layers@) =~= old_v.insert(pos as int, lv));
        assert(old_v == old(self).layers_view());
        assert(old(self).layers_view().insert(pos as int, lv) == layer_views(self.layers@));
        assert(0 <= pos <= old_v.len() && (forall|j: int| 0 <= j < pos ==> dir_depth(#[trigger] old_v[j].0) <= dir_depth(lv.0))
            && (pos < old_v.len() ==> dir_depth(old_v[pos as int].0) > dir_depth(lv.0))
            && layer_views(self.layers@) == old_v.insert(pos as int, lv));
    }

    /// Whether the workspace-relative file `rel_path` is excluded: the
    /// deepest layer with an opinion decides; the empty path never is.
    pub fn is_ignored(&self, rel_path: &str) -> (b: bool)
        ensures
            b == (rel_path@.len() > 0 && cascade(stack_verdicts(self.root_view(), self.layers_view(), rel_path@))),
    {
        let ghost lv = layer_views(self.layers@);
        let mut verdicts: Vec<LayerVerdict> = Vec::new();
        let mut i: usize = 0;
        while i < self.layers.len()
            invariant
                i <= self.layers.len(),
                lv == layer_views(self.layers@),
                verdicts@ == stack_verdicts(self.workspace_root@, lv, rel_path@).take(i as int),
            decreases self.layers.len() - i,
        {
            let v = self.layer_opinion(&self.layers[i], rel_path);
            verdicts.push(v);
            assert(verdicts@ =~= stack_verdicts(self.workspace_root@, lv, rel_path@).take(i + 1));
            i += 1;
        }
        assert(stack_verdicts(self.workspace_root@, lv, rel_path@).take(self.layers.len() as int)
            =~= stack_verdicts(self.workspace_root@, lv, rel_path@));
        is_ignored_by_layers(rel_path, verdicts.as_slice())
    }

    fn layer_opinion(&self, layer: &IgnoreLayer, rel_path: &str) -> (v: LayerVerdict)
        ensures
            v == stack_layer_says(self.workspace_root@, layer_view(*layer), rel_path@),
    {
        let rel = str_chars(rel_path);
        let dir = str_chars(layer.dir.as_str());
        let inner: Vec<char>;
        if dir.len() == 0 {
            inner = rel;
        } else if crate::text::seq_eq(&rel, &dir) {
            inner = Vec::new();
            assert(inner@ =~= Seq::<char>::empty());
        } else {
            let mut prefix = crate::text::chars_to_vec(&dir);
            prefix.push('/');
            proof {
                reveal_strlit("/");
                assert(prefix@ =~= dir@ + "/"@);
            }
            if !crate::text::has_prefix(&rel, &prefix) {
                return LayerVerdict::NoOpinion;
            }
            inner = crate::text::subrange_vec(&rel, prefix.len(), rel.len());
            assert(inner@ =~= rel@.skip((dir@.len() + 1) as int));
        }
        let root = if dir.len() == 0 {
            self.workspace_root.clone()
        } else {
            crate::lockfiles::join_str(self.workspace_root.as_str(), layer.dir.as_str())
        };
        let inner_s = string_from_chars(inner);
        layer_says_exec(root.as_str(), &layer.lines, inner_s.as_str(), false)
    }
}

/// A line with its leading byte-order marks removed.
pub open spec fn strip_bom(l: Seq<char>) -> Seq<char>
    decreases l.len(),
{
    if l.len() > 0 && l[0] == '\u{feff}' {
        strip_bom(l.drop_first())
    } else {
        l
    }
}

/// The lines of an ignore file as they are compiled: its lines, the first
/// one without leading byte-order marks.
pub open spec fn ignore_file_lines(text: Seq<char>) -> Seq<Seq<char>> {
    let ls = crate::text::lines(text);
    if ls.len() == 0 {
        ls
    } else {
        ls.update(0, strip_bom(ls[0]))
    }
}

fn strip_bom_vec(l: &Vec<char>) -> (v: Vec<char>)
    ensures
        v@ == strip_bom(l@),
{
    let mut k: usize = 0;
    assert(l@.skip(0) =~= l@);
    while k < l.len() && l[k] == '\u{feff}'
        invariant
            k <= l.len(),
            strip_bom(l@) == strip_bom(l@.skip(k as int)),
        decreases l.len() - k,
    {
        assert(l@.skip(k as int).drop_first() =~= l@.skip(k + 1));
        k += 1;
    }
    assert(l@.skip(k as int) =~= l@.subrange(k as int, l.len() as int));
    crate::text::subrange_vec(l, k, l.len())
}

/// The layer of an ignore file found in the workspace-relative directory
/// `dir`, from the file's text.
pub fn file_layer(dir: String, text: &str) -> (l: IgnoreLayer)
    ensures
        l.dir == dir,
        crate::workspace::string_views(l.lines@) == ignore_file_lines(text@),
{
    let chars = str_chars(text);
    let ls = crate::text::lines_of(&chars);
    let ghost lv = crate::text::views(ls@);
    let mut lines: Vec<String> = Vec::new();
    let mut i: usize = 0;
    while i < ls.len()
        invariant
            i <= ls.len(),
            lv == crate::text::views(ls@),
            lv == crate::text::lines(text@),
            lines@.len() == i,
            forall|j: int|
                0 <= j < i ==> (#[trigger] lines@[j])@ == (if j == 0 {
                    strip_bom(lv[j])
                } else {
                    lv[j]
                }),
        decreases ls.len() - i,
    {
        let line = if i == 0 {
            strip_bom_vec(&ls[i])
        } else {
            crate::text::chars_to_vec(ls[i].as_slice())
        };
        lines.push(string_from_chars(line));
        i += 1;
    }
    let l = IgnoreLayer { dir, lines };
    assert(crate::workspace::string_views(l.lines@) =~= ignore_file_lines(text@));
    l
}

/// The root layer given by a pattern block (such as the workspace
/// configuration's ignore block): its effective lines.
pub fn pattern_layer(patterns: &str) -> (l: IgnoreLayer)
    ensures
        l.dir@ == Seq::<char>::empty(),
        crate::workspace::string_views(l.lines@) == effective_lines(crate::text::lines(patterns@)),
{
    let lines = pattern_lines(patterns);
    let dir = string_from_chars(Vec::new());
    IgnoreLayer { dir, lines }
}

} // verus!
