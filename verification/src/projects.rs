//! Workspace projects: kind slugs, stored relative paths, the rows kept
//! from a detection pass, and which project owns a file.
use vstd::prelude::*;
use crate::text::{append_str, starts_with, str_chars, string_from_chars};

verus! {

/// Ecosystem of a detected project.
#[derive(Debug, Clone, PartialEq, Eq)]
pub enum ProjectKind {
    Rust,
    Node,
    Bun,
    Deno,
    Python,
    Lua,
    C,
    Cpp,
    Unknown,
    Custom(String),
}

/// Workspace organiser detected at a root.
#[derive(Debug, Clone, PartialEq, Eq)]
pub enum WorkspaceKind {
    Cargo,
    Npm,
    Pnpm,
    Yarn,
    Bun,
    Deno,
    Go,
    Lerna,
    Nx,
    Turborepo,
    Mira,
    Custom(String),
}

pub open spec fn project_kind_of(slug: Seq<char>) -> ProjectKindView {
    if slug == "rust"@ {
        ProjectKindView::Rust
    } else if slug == "node"@ {
        ProjectKindView::Node
    } else if slug == "bun"@ {
        ProjectKindView::Bun
    } else if slug == "deno"@ {
        ProjectKindView::Deno
    } else if slug == "python"@ {
        ProjectKindView::Python
    } else if slug == "lua"@ {
        ProjectKindView::Lua
    } else if slug == "c"@ {
        ProjectKindView::C
    } else if slug == "cpp"@ {
        ProjectKindView::Cpp
    } else if slug == "unknown"@ {
        ProjectKindView::Unknown
    } else {
        ProjectKindView::Custom(slug)
    }
}

/// [`ProjectKind`] with its custom tag as a sequence.
pub enum ProjectKindView {
    Rust,
    Node,
    Bun,
    Deno,
    Python,
    Lua,
    C,
    Cpp,
    Unknown,
    Custom(Seq<char>),
}

impl ProjectKind {
    pub open spec fn view_kind(&self) -> ProjectKindView {
        match self {
            ProjectKind::Rust => ProjectKindView::Rust,
            ProjectKind::Node => ProjectKindView::Node,
            ProjectKind::Bun => ProjectKindView::Bun,
            ProjectKind::Deno => ProjectKindView::Deno,
            ProjectKind::Python => ProjectKindView::Python,
            ProjectKind::Lua => ProjectKindView::Lua,
            ProjectKind::C => ProjectKindView::C,
            ProjectKind::Cpp => ProjectKindView::Cpp,
            ProjectKind::Unknown => ProjectKindView::Unknown,
            ProjectKind::Custom(s) => ProjectKindView::Custom(s@),
        }
    }

    /// Ecosystem tag shipped to clients: the slug of a built-in kind,
    /// `custom:<tag>` for a custom one.
    pub open spec fn spec_tag(&self) -> Seq<char> {
        match self {
            ProjectKind::Rust => "rust"@,
            ProjectKind::Node => "node"@,
            ProjectKind::Bun => "bun"@,
            ProjectKind::Deno => "deno"@,
            ProjectKind::Python => "python"@,
            ProjectKind::Lua => "lua"@,
            ProjectKind::C => "c"@,
            ProjectKind::Cpp => "cpp"@,
            ProjectKind::Unknown => "unknown"@,
            ProjectKind::Custom(s) => "custom:"@ + s@,
        }
    }

    pub fn tag(&self) -> (t: String)
        ensures
            t@ == self.spec_tag(),
    {
        let mut out: Vec<char> = Vec::new();
        match self {
            ProjectKind::Rust => append_str(&mut out, "rust"),
            ProjectKind::Node => append_str(&mut out, "node"),
            ProjectKind::Bun => append_str(&mut out, "bun"),
            ProjectKind::Deno => append_str(&mut out, "deno"),
            ProjectKind::Python => append_str(&mut out, "python"),
            ProjectKind::Lua => append_str(&mut out, "lua"),
            ProjectKind::C => append_str(&mut out, "c"),
            ProjectKind::Cpp => append_str(&mut out, "cpp"),
            ProjectKind::Unknown => append_str(&mut out, "unknown"),
            ProjectKind::Custom(s) => {
                append_str(&mut out, "custom:");
                append_str(&mut out, s.as_str());
            },
        }
        assert(out@ =~= Seq::<char>::empty() + self.spec_tag());
        string_from_chars(out)
    }
}

/// The project kind for a detector slug: built-in slugs map to their
/// variant, anything else is a custom kind.
pub fn from_kind_id(slug: &str) -> (k: ProjectKind)
    ensures
        k.view_kind() == project_kind_of(slug@),
{
    let s = str_chars(slug);
    if crate::text::eq_lit(&s, "rust") {
        ProjectKind::Rust
    } else if crate::text::eq_lit(&s, "node") {
        ProjectKind::Node
    } else if crate::text::eq_lit(&s, "bun") {
        ProjectKind::Bun
    } else if crate::text::eq_lit(&s, "deno") {
        ProjectKind::Deno
    } else if crate::text::eq_lit(&s, "python") {
        ProjectKind::Python
    } else if crate::text::eq_lit(&s, "lua") {
        ProjectKind::Lua
    } else if crate::text::eq_lit(&s, "c") {
        ProjectKind::C
    } else if crate::text::eq_lit(&s, "cpp") {
        ProjectKind::Cpp
    } else if crate::text::eq_lit(&s, "unknown") {
        ProjectKind::Unknown
    } else {
        ProjectKind::Custom(string_from_chars(s))
    }
}

/// Stored form of a detected project's relative path: `"."` is the root
/// (empty), and a leading `./` is dropped.
pub open spec fn normalised_rel(rel: Seq<char>) -> Seq<char> {
    if rel == "."@ {
        Seq::empty()
    } else if starts_with(rel, "./"@) {
        rel.skip(2)
    } else {
        rel
    }
}

pub fn normalise_rel_path(rel: &str) -> (r: String)
    ensures
        r@ == normalised_rel(rel@),
{
    let s = str_chars(rel);
    if crate::text::eq_lit(&s, ".") {
        return String::new();
    }
    if crate::text::starts_with_lit(&s, "./") {
        proof {
            reveal_strlit("./");
        }
        let t = crate::text::subrange_vec(&s, 2, s.len());
        assert(t@ =~= s@.skip(2));
        return string_from_chars(t);
    }
    string_from_chars(s)
}

/// A project as reported by the detector.
#[derive(Debug, Clone)]
pub struct DetectedProject {
    pub label: String,
    /// Detector kind slug.
    pub kind: String,
    pub absolute_path: String,
    pub rel_path: String,
}

/// A project row to store.
#[derive(Debug, Clone, PartialEq, Eq)]
pub struct ProjectRow {
    pub label: String,
    pub kind: ProjectKind,
    pub root_path: String,
    pub rel_path: String,
}

pub open spec fn kept_detection(d: DetectedProject) -> bool {
    d.kind@ != "unknown"@
}

/// The row stored for a kept detection.
pub open spec fn row_matches(r: ProjectRow, d: DetectedProject) -> bool {
    &&& r.label@ == d.label@
    &&& r.kind.view_kind() == project_kind_of(d.kind@)
    &&& r.root_path@ == d.absolute_path@
    &&& r.rel_path@ == normalised_rel(d.rel_path@)
}

/// Indices of the detections that are kept, in order.
pub open spec fn kept_indices(ds: Seq<DetectedProject>) -> Seq<int>
    decreases ds.len(),
{
    if ds.len() == 0 {
        Seq::empty()
    } else {
        let init = kept_indices(ds.drop_last());
        if kept_detection(ds.last()) {
            init.push(ds.len() - 1)
        } else {
            init
        }
    }
}

proof fn lemma_kept_indices_bound(ds: Seq<DetectedProject>)
    ensures
        forall|k: int| 0 <= k < kept_indices(ds).len() ==> 0 <= #[trigger] kept_indices(ds)[k] < ds.len(),
    decreases ds.len(),
{
    if ds.len() > 0 {
        lemma_kept_indices_bound(ds.drop_last());
        let init = kept_indices(ds.drop_last());
        if kept_detection(ds.last()) {
            assert forall|k: int| 0 <= k < init.push(ds.len() - 1).len() implies 0 <= #[trigger] init.push(
                ds.len() - 1,
            )[k] < ds.len() by {
                if k < init.len() {
                    assert(init.push(ds.len() - 1)[k] == init[k]);
                }
            }
        }
    }
}

/// The rows to store for a detection pass: `unknown` placeholders are
/// dropped, kinds are mapped and relative paths normalised.
pub fn project_rows(detected: &[DetectedProject]) -> (rows: Vec<ProjectRow>)
    ensures
        rows@.len() == kept_indices(detected@).len(),
        forall|k: int| 0 <= k < rows@.len() ==> row_matches(
            #[trigger] rows@[k],
            detected@[kept_indices(detected@)[k]],
        ),
{
    let mut rows: Vec<ProjectRow> = Vec::new();
    let mut i: usize = 0;
    while i < detected.len()
        invariant
            i <= detected.len(),
            rows@.len() == kept_indices(detected@.take(i as int)).len(),
            forall|k: int| 0 <= k < rows@.len() ==> row_matches(
                #[trigger] rows@[k],
                detected@[kept_indices(detected@.take(i as int))[k]],
            ),
        decreases detected.len() - i,
    {
        let d = &detected[i];
        assert(detected@.take(i + 1).drop_last() =~= detected@.take(i as int));
        assert(detected@.take(i + 1).last() == detected@[i as int]);
        proof {
            lemma_kept_indices_bound(detected@.take(i as int));
        }
        let ghost old_idx = kept_indices(detected@.take(i as int));
        let k = str_chars(d.kind.as_str());
        if !crate::text::eq_lit(&k, "unknown") {
            let row = ProjectRow {
                label: d.label.clone(),
                kind: from_kind_id(d.kind.as_str()),
                root_path: d.absolute_path.clone(),
                rel_path: normalise_rel_path(d.rel_path.as_str()),
            };
            rows.push(row);
            proof {
                let new_idx = kept_indices(detected@.take(i + 1));
                assert(new_idx == old_idx.push(i as int));
                assert forall|j: int| 0 <= j < rows@.len() implies row_matches(
                    #[trigger] rows@[j],
                    detected@[new_idx[j]],
                ) by {
                    if j < rows@.len() - 1 {
                        assert(new_idx[j] == old_idx[j]);
                    }
                }
            }
        }
        i += 1;
    }
    assert(detected@.take(detected.len() as int) =~= detected@);
    rows
}

/// The graph-response entry of a stored project.
pub fn graph_project(project_id: u32, label: String, kind: &ProjectKind, rel_path: String) -> (g: crate::graph::GraphProject)
    ensures
        g.project_id == project_id,
        g.label == label,
        g.kind@ == kind.spec_tag(),
        g.rel_path == rel_path,
{
    crate::graph::GraphProject { project_id, label, kind: kind.tag(), rel_path }
}

// ---------------------------------------------------------------------
// File ownership
// ---------------------------------------------------------------------

/// A project's relative path covers a file path: the root project covers
/// everything, others their own path and everything below it.
pub open spec fn covers(rel: Seq<char>, path: Seq<char>) -> bool {
    rel.len() == 0 || path == rel || starts_with(path, rel + "/"@)
}

fn covers_exec(rel: &str, path: &[char]) -> (b: bool)
    ensures
        b == covers(rel@, path@),
{
    let r = str_chars(rel);
    if r.len() == 0 {
        return true;
    }
    if crate::text::seq_eq(path, &r) {
        return true;
    }
    let mut with_sep = r;
    with_sep.push('/');
    proof {
        reveal_strlit("/");
    }
    assert(with_sep@ =~= rel@ + "/"@);
    crate::text::has_prefix(path, &with_sep)
}

/// The project owning a file: one whose relative path covers the file,
/// with the longest such path (`None` when no project covers it).
pub fn owning_project(path: &str, projects: &[(u32, String)]) -> (r: Option<u32>)
    ensures
        r is None ==> forall|k: int| 0 <= k < projects@.len() ==> !covers((#[trigger] projects@[k]).1@, path@),
        r matches Some(id) ==> exists|k: int| {
            &&& 0 <= k < projects@.len()
            &&& (#[trigger] projects@[k]).0 == id
            &&& covers(projects@[k].1@, path@)
            &&& forall|m: int| 0 <= m < projects@.len() && covers((#[trigger] projects@[m]).1@, path@)
                ==> projects@[m].1@.len() <= projects@[k].1@.len()
        },
{
    let p = str_chars(path);
    let mut best: Option<usize> = None;
    let mut i: usize = 0;
    while i < projects.len()
        invariant
            i <= projects.len(),
            p@ == path@,
            best is None ==> forall|k: int| 0 <= k < i ==> !covers((#[trigger] projects@[k]).1@, path@),
            best matches Some(b) ==> {
                &&& b < i
                &&& covers(projects@[b as int].1@, path@)
                &&& forall|m: int| 0 <= m < i && covers((#[trigger] projects@[m]).1@, path@)
                    ==> projects@[m].1@.len() <= projects@[b as int].1@.len()
            },
        decreases projects.len() - i,
    {
        let rel = &projects[i].1;
        if covers_exec(rel.as_str(), &p) {
            let len = str_chars(rel.as_str()).len();
            match best {
                None => {
                    best = Some(i);
                },
                Some(b) => {
                    let blen = str_chars(projects[b].1.as_str()).len();
                    if len > blen {
                        best = Some(i);
                    }
                },
            }
        }
        i += 1;
    }
    match best {
        None => None,
        Some(b) => {
            assert(projects@[b as int].0 == projects[b as int].0);
            Some(projects[b].0)
        },
    }
}

/// A workspace organiser the detector found (Cargo workspace, npm
/// workspaces, …) and the directory it is rooted at.
#[derive(Debug, Clone, PartialEq, Eq)]
pub struct DetectedWorkspace {
    pub root: String,
    pub kind: WorkspaceKind,
}

/// Index of the first detected workspace rooted at the scan root.
pub open spec fn first_at_root(ws: Seq<DetectedWorkspace>, root: Seq<char>) -> Option<int>
    decreases ws.len(),
{
    if ws.len() == 0 {
        None
    } else {
        match first_at_root(ws.drop_last(), root) {
            Some(i) => Some(i),
            None => if crate::paths::path_equal(ws.last().root@, root) {
                Some(ws.len() - 1)
            } else {
                None
            },
        }
    }
}

proof fn lemma_first_at_root_prefix(ws: Seq<DetectedWorkspace>, root: Seq<char>, i: int)
    requires
        0 <= i < ws.len(),
    ensures
        first_at_root(ws.take(i + 1), root) == (match first_at_root(ws.take(i), root) {
            Some(j) => Some(j),
            None => if crate::paths::path_equal(ws[i].root@, root) {
                Some(i)
            } else {
                None
            },
        }),
{
    assert(ws.take(i + 1).drop_last() =~= ws.take(i));
}

/// The primary workspace kind: that of the first detected workspace
/// whose root is the scan root (detector order breaks ties, e.g. Cargo
/// before npm in a Tauri tree); `None` when none is rooted there.
pub fn primary_workspace_kind(workspaces: &Vec<DetectedWorkspace>, workspace_root: &str) -> (r: Option<WorkspaceKind>)
    ensures
        match first_at_root(workspaces@, workspace_root@) {
            Some(i) => r == Some(workspaces@[i].kind),
            None => r is None,
        },
{
    let mut i: usize = 0;
    while i < workspaces.len()
        invariant
            i <= workspaces.len(),
            first_at_root(workspaces@.take(i as int), workspace_root@) is None,
        decreases workspaces.len() - i,
    {
        proof {
            lemma_first_at_root_prefix(workspaces@, workspace_root@, i as int);
        }
        if crate::paths::same_path(workspaces[i].root.as_str(), workspace_root) {
            let k = copy_workspace_kind(&workspaces[i].kind);
            proof {
                lemma_first_at_root_extends(workspaces@, workspace_root@, i as int + 1);
            }
            return Some(k);
        }
        i += 1;
    }
    assert(workspaces@.take(workspaces.len() as int) =~= workspaces@);
    None
}

proof fn lemma_first_at_root_extends(ws: Seq<DetectedWorkspace>, root: Seq<char>, n: int)
    requires
        0 <= n <= ws.len(),
        first_at_root(ws.take(n), root) is Some,
    ensures
        first_at_root(ws, root) == first_at_root(ws.take(n), root),
    decreases ws.len() - n,
{
    if n < ws.len() {
        lemma_first_at_root_prefix(ws, root, n);
        lemma_first_at_root_extends(ws, root, n + 1);
    } else {
        assert(ws.take(n) =~= ws);
    }
}

fn copy_workspace_kind(k: &WorkspaceKind) -> (r: WorkspaceKind)
    ensures
        r == *k,
{
    match k {
        WorkspaceKind::Cargo => WorkspaceKind::Cargo,
        WorkspaceKind::Npm => WorkspaceKind::Npm,
        WorkspaceKind::Pnpm => WorkspaceKind::Pnpm,
        WorkspaceKind::Yarn => WorkspaceKind::Yarn,
        WorkspaceKind::Bun => WorkspaceKind::Bun,
        WorkspaceKind::Deno => WorkspaceKind::Deno,
        WorkspaceKind::Go => WorkspaceKind::Go,
        WorkspaceKind::Lerna => WorkspaceKind::Lerna,
        WorkspaceKind::Nx => WorkspaceKind::Nx,
        WorkspaceKind::Turborepo => WorkspaceKind::Turborepo,
        WorkspaceKind::Mira => WorkspaceKind::Mira,
        WorkspaceKind::Custom(s) => {
            let c = s.clone();
            proof {
                assert(c@ == s@);
            }
            WorkspaceKind::Custom(c)
        },
    }
}

} // verus!
