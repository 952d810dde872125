//! Peer workspaces: storage-scoped paths, the per-peer extraction
//! tally, the watcher's registry of peer roots, and the routing of a
//! changed path to the workspace that owns it.
use vstd::prelude::*;
use crate::lockfiles::SourceOrigin;
use crate::paths::path_strip_prefix;
use crate::query::{primary_workspace_id, primary_workspace_id_str};
use crate::text::{append_str, str_chars, string_from_chars};

verus! {

// ---------------------------------------------------------------------
// Scoped paths
// ---------------------------------------------------------------------

/// Storage path of a file owned by `workspace_id`: primary files keep
/// their relative path, peer files are prefixed with `ws:<id>:` so they
/// cannot collide with primary rows.
pub open spec fn scoped_path(workspace_id: Seq<char>, rel: Seq<char>) -> Seq<char> {
    if workspace_id == primary_workspace_id() {
        rel
    } else {
        "ws:"@ + workspace_id + ":"@ + rel
    }
}

/// The storage-scoped path of `rel` inside `workspace_id`.
pub fn peer_path(workspace_id: &str, rel: &str) -> (p: String)
    ensures
        p@ == scoped_path(workspace_id@, rel@),
{
    let id = str_chars(workspace_id);
    if crate::text::eq_lit(&id, primary_workspace_id_str()) {
        let r = str_chars(rel);
        return string_from_chars(r);
    }
    let mut out: Vec<char> = Vec::new();
    append_str(&mut out, "ws:");
    append_str(&mut out, workspace_id);
    append_str(&mut out, ":");
    append_str(&mut out, rel);
    string_from_chars(out)
}

/// The paths an extracted file carries: its own, each symbol's location
/// file, each edge's site files, each call site's file.
#[derive(Debug, Clone, PartialEq, Eq)]
pub struct EmbeddedPaths {
    pub file: String,
    pub symbol_files: Vec<String>,
    pub edge_site_files: Vec<Vec<String>>,
    pub call_site_files: Vec<String>,
}

/// Every text of `s` is `p`.
pub open spec fn all_are(s: Seq<String>, p: Seq<char>) -> bool {
    forall|i: int| 0 <= i < s.len() ==> (#[trigger] s[i])@ == p
}

fn filled_like(v: &Vec<String>, p: &String) -> (r: Vec<String>)
    ensures
        r@.len() == v@.len(),
        all_are(r@, p@),
{
    let mut r: Vec<String> = Vec::new();
    let mut i: usize = 0;
    while i < v.len()
        invariant
            i <= v.len(),
            r@.len() == i,
            all_are(r@, p@),
        decreases v.len() - i,
    {
        r.push(p.clone());
        i += 1;
    }
    r
}

/// Re-homes an extracted file into `workspace_id`'s storage namespace:
/// for a peer, the file path and every path embedded in it (symbol
/// locations, edge sites, call sites) become the file's scoped path;
/// for the primary workspace nothing changes. The shape (how many
/// symbols, edges and sites) is kept.
pub fn scope_extracted_paths(extracted: &mut EmbeddedPaths, workspace_id: &str)
    ensures
        workspace_id@ == primary_workspace_id() ==> *final(extracted) == *old(extracted),
        workspace_id@ != primary_workspace_id() ==> {
            let scoped = scoped_path(workspace_id@, old(extracted).file@);
            &&& final(extracted).file@ == scoped
            &&& final(extracted).symbol_files@.len() == old(extracted).symbol_files@.len()
            &&& all_are(final(extracted).symbol_files@, scoped)
            &&& final(extracted).call_site_files@.len() == old(extracted).call_site_files@.len()
            &&& all_are(final(extracted).call_site_files@, scoped)
            &&& final(extracted).edge_site_files@.len() == old(extracted).edge_site_files@.len()
            &&& forall|e: int|
                0 <= e < final(extracted).edge_site_files@.len() ==> {
                    &&& (#[trigger] final(extracted).edge_site_files@[e])@.len()
                        == old(extracted).edge_site_files@[e]@.len()
                    &&& all_are(final(extracted).edge_site_files@[e]@, scoped)
                }
        },
{
    let id = str_chars(workspace_id);
    if crate::text::eq_lit(&id, primary_workspace_id_str()) {
        return;
    }
    let scoped = peer_path(workspace_id, extracted.file.as_str());
    let symbol_files = filled_like(&extracted.symbol_files, &scoped);
    let call_site_files = filled_like(&extracted.call_site_files, &scoped);
    let mut edge_site_files: Vec<Vec<String>> = Vec::new();
    let mut i: usize = 0;
    while i < extracted.edge_site_files.len()
        invariant
            i <= extracted.edge_site_files.len(),
            edge_site_files@.len() == i,
            forall|e: int|
                0 <= e < i ==> {
                    &&& (#[trigger] edge_site_files@[e])@.len() == extracted.edge_site_files@[e]@.len()
                    &&& all_are(edge_site_files@[e]@, scoped@)
                },
        decreases extracted.edge_site_files.len() - i,
    {
        let sites = filled_like(&extracted.edge_site_files[i], &scoped);
        edge_site_files.push(sites);
        i += 1;
    }
    extracted.symbol_files = symbol_files;
    extracted.call_site_files = call_site_files;
    extracted.edge_site_files = edge_site_files;
    extracted.file = scoped;
}

// ---------------------------------------------------------------------
// Peer extraction tally
// ---------------------------------------------------------------------

/// How a peer extraction ended.
#[derive(Debug, Clone, PartialEq, Eq)]
pub enum PeerExtractStatus {
    Succeeded,
    SkippedInactive,
    SkippedMissing,
    Failed(String),
}

/// Outcome of extracting one peer workspace.
#[derive(Debug, Clone, PartialEq, Eq)]
pub struct PeerExtractStats {
    pub workspace_id: String,
    pub root_path: String,
    pub status: PeerExtractStatus,
    pub files_extracted: usize,
    pub files_skipped_unchanged: usize,
    pub files_parse_errors: usize,
}

/// What happened to one candidate file of a peer walk.
#[derive(Debug, Clone, Copy, PartialEq, Eq)]
pub enum PeerFileOutcome {
    /// The file is not below the peer root.
    OutsideRoot,
    ReadFailed,
    /// The stored content hash equals the file's: nothing to do.
    Unchanged,
    NotUtf8,
    Extracted,
    ParseError,
    ProviderIoError,
    UnsupportedLanguage,
}

/// The status a peer gets before any file is read: inactive peers and
/// peers whose root is gone are skipped.
pub open spec fn preflight_status(active: bool, root_exists: bool) -> Option<PeerExtractStatus> {
    if !active {
        Some(PeerExtractStatus::SkippedInactive)
    } else if !root_exists {
        Some(PeerExtractStatus::SkippedMissing)
    } else {
        None
    }
}

/// `Some(status)` when the peer is not extracted at all.
pub fn peer_preflight(active: bool, root_exists: bool) -> (r: Option<PeerExtractStatus>)
    ensures
        r == preflight_status(active, root_exists),
{
    if !active {
        Some(PeerExtractStatus::SkippedInactive)
    } else if !root_exists {
        Some(PeerExtractStatus::SkippedMissing)
    } else {
        None
    }
}

/// A stored content hash matches a freshly computed one.
pub fn peer_hash_matches(stored: &Option<String>, new_hex: &str) -> (b: bool)
    ensures
        b == (stored matches Some(h) && h@ == new_hex@),
{
    match stored {
        Some(h) => {
            let a = str_chars(h.as_str());
            crate::text::eq_lit(&a, new_hex)
        },
        None => false,
    }
}

/// How many of `s` are `o`.
pub open spec fn count_outcome(s: Seq<PeerFileOutcome>, o: PeerFileOutcome) -> nat
    decreases s.len(),
{
    if s.len() == 0 {
        0
    } else if s.last() == o {
        count_outcome(s.drop_last(), o) + 1
    } else {
        count_outcome(s.drop_last(), o)
    }
}

proof fn lemma_count_outcome_bounded(s: Seq<PeerFileOutcome>, o: PeerFileOutcome)
    ensures
        count_outcome(s, o) <= s.len(),
    decreases s.len(),
{
    if s.len() > 0 {
        lemma_count_outcome_bounded(s.drop_last(), o);
    }
}

/// The tally of a peer whose walk produced `outcomes`, one per candidate
/// file: extracted files, unchanged skips and parse errors counted, every
/// other outcome (unreadable, not UTF-8, outside the root, provider I/O
/// error, unsupported language) left out.
pub fn tally_peer_files(workspace_id: String, root_path: String, outcomes: &Vec<PeerFileOutcome>) -> (s: PeerExtractStats)
    ensures
        s.workspace_id == workspace_id,
        s.root_path == root_path,
        s.status == PeerExtractStatus::Succeeded,
        s.files_extracted == count_outcome(outcomes@, PeerFileOutcome::Extracted),
        s.files_skipped_unchanged == count_outcome(outcomes@, PeerFileOutcome::Unchanged),
        s.files_parse_errors == count_outcome(outcomes@, PeerFileOutcome::ParseError),
{
    let mut s = PeerExtractStats::start(workspace_id, root_path);
    let mut i: usize = 0;
    while i < outcomes.len()
        invariant
            i <= outcomes.len(),
            s.workspace_id == workspace_id,
            s.root_path == root_path,
            s.status == PeerExtractStatus::Succeeded,
            s.files_extracted == count_outcome(outcomes@.take(i as int), PeerFileOutcome::Extracted),
            s.files_skipped_unchanged == count_outcome(outcomes@.take(i as int), PeerFileOutcome::Unchanged),
            s.files_parse_errors == count_outcome(outcomes@.take(i as int), PeerFileOutcome::ParseError),
        decreases outcomes.len() - i,
    {
        proof {
            let t = outcomes@.take(i + 1);
            assert(t.drop_last() =~= outcomes@.take(i as int));
            assert(t.last() == outcomes@[i as int]);
            lemma_count_outcome_bounded(outcomes@.take(i as int), PeerFileOutcome::Extracted);
            lemma_count_outcome_bounded(outcomes@.take(i as int), PeerFileOutcome::Unchanged);
            lemma_count_outcome_bounded(outcomes@.take(i as int), PeerFileOutcome::ParseError);
        }
        s.record(outcomes[i]);
        i += 1;
    }
    assert(outcomes@.take(outcomes.len() as int) =~= outcomes@);
    s
}

/// A peer's tally accounts for each candidate file at most once: the
/// extracted files, unchanged skips and parse errors together never
/// exceed the files walked.
pub proof fn lemma_peer_tally_accounts(outcomes: Seq<PeerFileOutcome>)
    ensures
        count_outcome(outcomes, PeerFileOutcome::Extracted) + count_outcome(outcomes, PeerFileOutcome::Unchanged)
            + count_outcome(outcomes, PeerFileOutcome::ParseError) <= outcomes.len(),
    decreases outcomes.len(),
{
    if outcomes.len() > 0 {
        lemma_peer_tally_accounts(outcomes.drop_last());
    }
}

impl PeerExtractStats {
    /// Fresh tally for a peer: status `Ok`, every count zero.
    pub fn start(workspace_id: String, root_path: String) -> (s: Self)
        ensures
            s.workspace_id == workspace_id,
            s.root_path == root_path,
            s.status == PeerExtractStatus::Succeeded,
            s.files_extracted == 0,
            s.files_skipped_unchanged == 0,
            s.files_parse_errors == 0,
    {
        PeerExtractStats {
            workspace_id,
            root_path,
            status: PeerExtractStatus::Succeeded,
            files_extracted: 0,
            files_skipped_unchanged: 0,
            files_parse_errors: 0,
        }
    }

    /// The tally with a pre-flight skip status and no file counted.
    pub fn skipped(workspace_id: String, root_path: String, status: PeerExtractStatus) -> (s: Self)
        ensures
            s.workspace_id == workspace_id,
            s.root_path == root_path,
            s.status == status,
            s.files_extracted == 0,
            s.files_skipped_unchanged == 0,
            s.files_parse_errors == 0,
    {
        PeerExtractStats {
            workspace_id,
            root_path,
            status,
            files_extracted: 0,
            files_skipped_unchanged: 0,
            files_parse_errors: 0,
        }
    }

    /// Counts one file outcome: extracted files, unchanged skips and
    /// parse errors are counted, every other outcome leaves the tally.
    pub fn record(&mut self, outcome: PeerFileOutcome)
        requires
            old(self).files_extracted < usize::MAX,
            old(self).files_skipped_unchanged < usize::MAX,
            old(self).files_parse_errors < usize::MAX,
        ensures
            final(self).workspace_id == old(self).workspace_id,
            final(self).root_path == old(self).root_path,
            final(self).status == old(self).status,
            final(self).files_extracted == old(self).files_extracted + (if outcome
                == PeerFileOutcome::Extracted {
                1int
            } else {
                0int
            }),
            final(self).files_skipped_unchanged == old(self).files_skipped_unchanged + (if outcome
                == PeerFileOutcome::Unchanged {
                1int
            } else {
                0int
            }),
            final(self).files_parse_errors == old(self).files_parse_errors + (if outcome
                == PeerFileOutcome::ParseError {
                1int
            } else {
                0int
            }),
    {
        match outcome {
            PeerFileOutcome::Extracted => {
                self.files_extracted = self.files_extracted + 1;
            },
            PeerFileOutcome::Unchanged => {
                self.files_skipped_unchanged = self.files_skipped_unchanged + 1;
            },
            PeerFileOutcome::ParseError => {
                self.files_parse_errors = self.files_parse_errors + 1;
            },
            _ => {},
        }
    }

    /// The primary's revision is bumped when anything was written.
    pub fn wrote_rows(&self) -> (b: bool)
        ensures
            b == (self.files_extracted > 0 || self.files_parse_errors > 0),
    {
        self.files_extracted > 0 || self.files_parse_errors > 0
    }
}

// ---------------------------------------------------------------------
// Watcher registry
// ---------------------------------------------------------------------

/// One peer workspace observed by the watcher.
#[derive(Debug, Clone)]
pub struct PeerRoot {
    pub workspace_id: String,
    pub root: String,
}

pub open spec fn peer_view(p: PeerRoot) -> (Seq<char>, Seq<char>) {
    (p.workspace_id@, p.root@)
}

pub open spec fn peer_views(s: Seq<PeerRoot>) -> Seq<(Seq<char>, Seq<char>)> {
    s.map_values(|p: PeerRoot| peer_view(p))
}

/// No workspace id occurs twice.
pub open spec fn unique_ids(s: Seq<(Seq<char>, Seq<char>)>) -> bool {
    forall|i: int, j: int| 0 <= i < j < s.len() ==> (#[trigger] s[i]).0 != (#[trigger] s[j]).0
}

pub open spec fn has_id(s: Seq<(Seq<char>, Seq<char>)>, id: Seq<char>) -> bool {
    exists|i: int| 0 <= i < s.len() && (#[trigger] s[i]).0 == id
}

/// The registry after registering `(id, root)`: unchanged when `id` is
/// already watched, else extended at the end.
pub open spec fn registry_add(s: Seq<(Seq<char>, Seq<char>)>, id: Seq<char>, root: Seq<char>) -> Seq<(Seq<char>, Seq<char>)> {
    if has_id(s, id) {
        s
    } else {
        s.push((id, root))
    }
}

/// The registry after unregistering `id`.
pub open spec fn registry_remove(s: Seq<(Seq<char>, Seq<char>)>, id: Seq<char>) -> Seq<(Seq<char>, Seq<char>)> {
    s.filter(|p: (Seq<char>, Seq<char>)| p.0 != id)
}

/// The live set of watched peers, each workspace id at most once.
pub struct PeerRegistry {
    peers: Vec<PeerRoot>,
}

impl View for PeerRegistry {
    type V = Seq<(Seq<char>, Seq<char>)>;

    closed spec fn view(&self) -> Seq<(Seq<char>, Seq<char>)> {
        peer_views(self.peers@)
    }
}

fn copy_peer(p: &PeerRoot) -> (c: PeerRoot)
    ensures
        peer_view(c) == peer_view(*p),
{
    PeerRoot { workspace_id: p.workspace_id.clone(), root: p.root.clone() }
}

impl PeerRegistry {
    pub open spec fn well_formed(&self) -> bool {
        unique_ids(self@)
    }

    pub fn new() -> (r: Self)
        ensures
            r@ == Seq::<(Seq<char>, Seq<char>)>::empty(),
            r.well_formed(),
    {
        let r = PeerRegistry { peers: Vec::new() };
        assert(r@ =~= Seq::<(Seq<char>, Seq<char>)>::empty());
        r
    }

    /// Position of `workspace_id` in the registry.
    fn position(&self, workspace_id: &str) -> (r: Option<usize>)
        ensures
            r matches Some(i) ==> i < self@.len() && self@[i as int].0 == workspace_id@,
            r is None ==> !has_id(self@, workspace_id@),
    {
        let id = str_chars(workspace_id);
        let mut i: usize = 0;
        while i < self.peers.len()
            invariant
                i <= self.peers.len(),
                id@ == workspace_id@,
                forall|j: int| 0 <= j < i ==> (#[trigger] self@[j]).0 != workspace_id@,
            decreases self.peers.len() - i,
        {
            let p = &self.peers[i];
            let w = str_chars(p.workspace_id.as_str());
            assert(self@[i as int] == peer_view(*p));
            if crate::text::seq_eq(&w, &id) {
                return Some(i);
            }
            i += 1;
        }
        None
    }

    /// Whether `workspace_id` is watched.
    pub fn contains(&self, workspace_id: &str) -> (b: bool)
        ensures
            b == has_id(self@, workspace_id@),
    {
        self.position(workspace_id).is_some()
    }

    /// Registers a peer; registering an id twice is a no-op. Returns
    /// whether the peer was new (the caller then starts watching it).
    pub fn add(&mut self, workspace_id: String, root: String) -> (added: bool)
        requires
            old(self).well_formed(),
        ensures
            final(self).well_formed(),
            added == !has_id(old(self)@, workspace_id@),
            final(self)@ == registry_add(old(self)@, workspace_id@, root@),
    {
        if self.contains(workspace_id.as_str()) {
            return false;
        }
        let ghost before = self@;
        let ghost entry = (workspace_id@, root@);
        self.peers.push(PeerRoot { workspace_id, root });
        assert(self@ =~= before.push(entry));
        true
    }

    /// Unregisters a peer; removing an unknown id is a no-op. Returns
    /// the removed entry (the caller then stops watching its root).
    pub fn remove(&mut self, workspace_id: &str) -> (removed: Option<PeerRoot>)
        requires
            old(self).well_formed(),
        ensures
            final(self).well_formed(),
            final(self)@ == registry_remove(old(self)@, workspace_id@),
            removed is None <==> !has_id(old(self)@, workspace_id@),
            removed matches Some(p) ==> p.workspace_id@ == workspace_id@ && old(self)@.contains(
                peer_view(p),
            ),
    {
        let ghost before = self@;
        match self.position(workspace_id) {
            None => {
                proof {
                    lemma_filter_without(before, workspace_id@);
                }
                None
            },
            Some(i) => {
                let p = self.peers.remove(i);
                proof {
                    lemma_filter_one(before, workspace_id@, i as int);
                    assert(self@ =~= before.remove(i as int));
                    assert(before[i as int] == peer_view(p));
                    assert forall|a: int, b: int| 0 <= a < b < self@.len() implies (
                    #[trigger] self@[a]).0 != (#[trigger] self@[b]).0 by {
                        let a2 = if a < i { a } else { a + 1 };
                        let b2 = if b < i { b } else { b + 1 };
                        assert(self@[a] == before[a2]);
                        assert(self@[b] == before[b2]);
                    }
                }
                Some(p)
            },
        }
    }

    /// Point-in-time copy of the watched peers.
    pub fn snapshot(&self) -> (v: Vec<PeerRoot>)
        ensures
            peer_views(v@) == self@,
    {
        let mut v: Vec<PeerRoot> = Vec::new();
        let mut i: usize = 0;
        while i < self.peers.len()
            invariant
                i <= self.peers.len(),
                peer_views(v@) == self@.take(i as int),
            decreases self.peers.len() - i,
        {
            let c = copy_peer(&self.peers[i]);
            let ghost prev = peer_views(v@);
            v.push(c);
            assert(peer_views(v@) =~= prev.push(self@[i as int]));
            i += 1;
            assert(peer_views(v@) =~= self@.take(i as int));
        }
        assert(self@.take(self.peers.len() as int) =~= self@);
        v
    }
}

proof fn lemma_filter_without(s: Seq<(Seq<char>, Seq<char>)>, id: Seq<char>)
    requires
        !has_id(s, id),
    ensures
        registry_remove(s, id) == s,
    decreases s.len(),
{
    if s.len() > 0 {
        assert(!has_id(s.drop_last(), id)) by {
            if has_id(s.drop_last(), id) {
                let k = choose|k: int| 0 <= k < s.drop_last().len() && (#[trigger] s.drop_last()[k]).0 == id;
                assert(s[k] == s.drop_last()[k]);
            }
        }
        lemma_filter_without(s.drop_last(), id);
        assert(s[s.len() - 1].0 != id);
        assert(s.drop_last().push(s.last()) =~= s);
        reveal_with_fuel(Seq::filter, 1);
    } else {
        assert(registry_remove(s, id) =~= s);
    }
}

proof fn lemma_filter_one(s: Seq<(Seq<char>, Seq<char>)>, id: Seq<char>, i: int)
    requires
        unique_ids(s),
        0 <= i < s.len(),
        s[i].0 == id,
    ensures
        registry_remove(s, id) == s.remove(i),
    decreases s.len(),
{
    let pred = |p: (Seq<char>, Seq<char>)| p.0 != id;
    if i == s.len() - 1 {
        assert(!has_id(s.drop_last(), id)) by {
            if has_id(s.drop_last(), id) {
                let k = choose|k: int| 0 <= k < s.drop_last().len() && (#[trigger] s.drop_last()[k]).0 == id;
                assert(s[k] == s.drop_last()[k]);
            }
        }
        lemma_filter_without(s.drop_last(), id);
        assert(s.remove(i) =~= s.drop_last());
        reveal_with_fuel(Seq::filter, 1);
    } else {
        let init = s.drop_last();
        assert forall|a: int, b: int| 0 <= a < b < init.len() implies (#[trigger] init[a]).0 != (
        #[trigger] init[b]).0 by {
            assert(init[a] == s[a]);
            assert(init[b] == s[b]);
        }
        assert(init[i] == s[i]);
        lemma_filter_one(init, id, i);
        assert(s.last().0 != id) by {
            assert(s[s.len() - 1] == s.last());
        }
        reveal_with_fuel(Seq::filter, 1);
        assert(s.remove(i) =~= init.remove(i).push(s.last()));
    }
}

/// Registering a peer that is already registered changes nothing.
pub proof fn lemma_registry_add_idempotent(s: Seq<(Seq<char>, Seq<char>)>, id: Seq<char>, root: Seq<char>, root2: Seq<char>)
    ensures
        registry_add(registry_add(s, id, root), id, root2) == registry_add(s, id, root),
{
    if !has_id(s, id) {
        let t = s.push((id, root));
        assert(t[s.len() as int].0 == id);
        assert(has_id(t, id));
    }
}

/// Removing a peer that was just registered (and was not registered
/// before) gives the registry back.
pub proof fn lemma_registry_add_remove(s: Seq<(Seq<char>, Seq<char>)>, id: Seq<char>, root: Seq<char>)
    requires
        unique_ids(s),
        !has_id(s, id),
    ensures
        registry_remove(registry_add(s, id, root), id) == s,
{
    let t = s.push((id, root));
    assert forall|a: int, b: int| 0 <= a < b < t.len() implies (#[trigger] t[a]).0 != (#[trigger] t[b]).0 by {
        if b == s.len() {
            assert(t[a] == s[a]);
            if s[a].0 == id {
                assert(has_id(s, id));
            }
        } else {
            assert(t[a] == s[a]);
            assert(t[b] == s[b]);
        }
    }
    lemma_filter_one(t, id, s.len() as int);
    assert(t.remove(s.len() as int) =~= s);
}

/// After a peer is removed, it is no longer registered.
pub proof fn lemma_registry_remove_forgets(s: Seq<(Seq<char>, Seq<char>)>, id: Seq<char>)
    ensures
        !has_id(registry_remove(s, id), id),
{
    let r = registry_remove(s, id);
    if has_id(r, id) {
        let k = choose|k: int| 0 <= k < r.len() && (#[trigger] r[k]).0 == id;
        s.lemma_filter_pred(|p: (Seq<char>, Seq<char>)| p.0 != id, k);
    }
}

// ---------------------------------------------------------------------
// Event routing
// ---------------------------------------------------------------------

/// The workspace that owns a changed path.
#[derive(Debug, Clone, PartialEq, Eq)]
pub enum Owner {
    Primary,
    Peer { workspace_id: String, peer_root: String },
}

/// Index of the first peer whose root contains the path.
pub open spec fn first_peer_under(abs: Seq<char>, peers: Seq<(Seq<char>, Seq<char>)>, i: int) -> bool {
    &&& 0 <= i < peers.len()
    &&& path_strip_prefix(abs, peers[i].1) is Some
    &&& forall|j: int| 0 <= j < i ==> path_strip_prefix(abs, (#[trigger] peers[j]).1) is None
}

/// Which workspace owns `abs`: the primary when the path lies below the
/// primary root, else the first registered peer whose root contains it.
pub fn resolve_owner(abs_path: &str, primary_root: &str, peers: &[PeerRoot]) -> (o: Option<Owner>)
    ensures
        path_strip_prefix(abs_path@, primary_root@) is Some ==> o == Some(Owner::Primary),
        path_strip_prefix(abs_path@, primary_root@) is None ==> match o {
            None => forall|j: int| 0 <= j < peers@.len() ==> path_strip_prefix(
                abs_path@,
                (#[trigger] peers@[j]).root@,
            ) is None,
            Some(Owner::Primary) => false,
            Some(Owner::Peer { workspace_id, peer_root }) => exists|i: int|
                first_peer_under(abs_path@, peer_views(peers@), i) && peer_views(peers@)[i] == (
                    workspace_id@,
                    peer_root@,
                ),
        },
{
    if crate::paths::strip_prefix_str(abs_path, primary_root).is_some() {
        return Some(Owner::Primary);
    }
    let ghost pv = peer_views(peers@);
    let mut i: usize = 0;
    while i < peers.len()
        invariant
            i <= peers.len(),
            pv == peer_views(peers@),
            path_strip_prefix(abs_path@, primary_root@) is None,
            forall|j: int| 0 <= j < i ==> path_strip_prefix(abs_path@, (#[trigger] peers@[j]).root@) is None,
        decreases peers.len() - i,
    {
        let p = &peers[i];
        if crate::paths::strip_prefix_str(abs_path, p.root.as_str()).is_some() {
            let c = copy_peer(p);
            proof {
                assert(pv[i as int] == peer_view(*p));
                assert forall|j: int| 0 <= j < i implies path_strip_prefix(abs_path@, (#[trigger] pv[j]).1) is None by {
                    assert(pv[j] == peer_view(peers@[j]));
                }
                assert(first_peer_under(abs_path@, pv, i as int));
            }
            return Some(Owner::Peer { workspace_id: c.workspace_id, peer_root: c.root });
        }
        i += 1;
    }
    None
}

/// What the watcher does with a changed path of the primary workspace.
#[derive(Debug, Clone, PartialEq, Eq)]
pub enum PrimaryAction {
    Ignore,
    /// The workspace configuration file changed: reload the filters.
    ReloadConfig,
    /// A tracked lockfile changed: drop the external rows of this origin.
    Lockfile(SourceOrigin),
    /// A manifest changed: re-detect the workspace projects.
    Manifest,
    Upsert(String),
    Delete(String),
}

/// The routing rule of the primary watcher, in order: paths outside the
/// root are ignored; the configuration file, tracked lockfiles and
/// manifests are handled by name; filtered paths and unsupported
/// extensions are ignored; an existing file is re-indexed and a vanished
/// path deleted.
pub open spec fn primary_action(
    abs: Seq<char>,
    root: Seq<char>,
    skipped: bool,
    is_file: bool,
    exists: bool,
) -> PrimaryActionView {
    match crate::paths::relative_form(path_strip_prefix(abs, root)) {
        None => PrimaryActionView::Ignore,
        Some(rel) => if crate::paths::file_name(abs) == Some("standardoc.sxd"@) {
            PrimaryActionView::ReloadConfig
        } else if crate::lockfiles::lockfile_origin(root, abs) is Some {
            PrimaryActionView::Lockfile(crate::lockfiles::lockfile_origin(root, abs)->0)
        } else if crate::manifest::manifest_path(abs) {
            PrimaryActionView::Manifest
        } else if skipped || !crate::paths::is_supported_path(abs) {
            PrimaryActionView::Ignore
        } else if is_file {
            PrimaryActionView::Upsert(rel)
        } else if !exists {
            PrimaryActionView::Delete(rel)
        } else {
            PrimaryActionView::Ignore
        },
    }
}

/// [`PrimaryAction`] with its texts as sequences.
pub enum PrimaryActionView {
    Ignore,
    ReloadConfig,
    Lockfile(SourceOrigin),
    Manifest,
    Upsert(Seq<char>),
    Delete(Seq<char>),
}

pub open spec fn primary_action_view(a: PrimaryAction) -> PrimaryActionView {
    match a {
        PrimaryAction::Ignore => PrimaryActionView::Ignore,
        PrimaryAction::ReloadConfig => PrimaryActionView::ReloadConfig,
        PrimaryAction::Lockfile(o) => PrimaryActionView::Lockfile(o),
        PrimaryAction::Manifest => PrimaryActionView::Manifest,
        PrimaryAction::Upsert(r) => PrimaryActionView::Upsert(r@),
        PrimaryAction::Delete(r) => PrimaryActionView::Delete(r@),
    }
}

/// Routes a changed path of the primary workspace. `skipped` is the scan
/// filters' verdict on its relative path; `is_file` and `exists` describe
/// the path on disk now.
pub fn route_primary_path(
    abs_path: &str,
    workspace_root: &str,
    skipped: bool,
    is_file: bool,
    exists: bool,
) -> (a: PrimaryAction)
    ensures
        primary_action_view(a) == primary_action(
            abs_path@,
            workspace_root@,
            skipped,
            is_file,
            exists,
        ),
{
    let rel = match crate::paths::to_workspace_relative(abs_path, workspace_root) {
        None => return PrimaryAction::Ignore,
        Some(r) => r,
    };
    let abs = str_chars(abs_path);
    match crate::paths::file_name_of(&abs) {
        Some(name) => {
            if crate::text::eq_lit(&name, "standardoc.sxd") {
                return PrimaryAction::ReloadConfig;
            }
        },
        None => {},
    }
    match crate::lockfiles::classify_lockfile_path(workspace_root, abs_path) {
        Some(origin) => {
            return PrimaryAction::Lockfile(origin);
        },
        None => {},
    }
    if crate::manifest::is_manifest_file(abs_path) {
        return PrimaryAction::Manifest;
    }
    if skipped || !crate::paths::has_supported_extension(abs_path) {
        return PrimaryAction::Ignore;
    }
    if is_file {
        PrimaryAction::Upsert(rel)
    } else if !exists {
        PrimaryAction::Delete(rel)
    } else {
        PrimaryAction::Ignore
    }
}

/// What the watcher does with a changed path of a peer workspace.
#[derive(Debug, Clone, PartialEq, Eq)]
pub enum PeerAction {
    Ignore,
    Upsert(String),
    Delete(String),
}

/// The routing rule for peers: no configuration, lockfile or manifest
/// handling, only the extension gate and the upsert / delete decision.
pub open spec fn peer_action(abs: Seq<char>, root: Seq<char>, is_file: bool, exists: bool) -> Option<(bool, Seq<char>)> {
    match crate::paths::relative_form(path_strip_prefix(abs, root)) {
        None => None,
        Some(rel) => if !crate::paths::is_supported_path(abs) {
            None
        } else if is_file {
            Some((true, rel))
        } else if !exists {
            Some((false, rel))
        } else {
            None
        },
    }
}

/// Routes a changed path of a peer workspace (see [`peer_action`]:
/// `Some((true, rel))` is an upsert, `Some((false, rel))` a delete).
pub fn route_peer_path(abs_path: &str, peer_root: &str, is_file: bool, exists: bool) -> (a: PeerAction)
    ensures
        match a {
            PeerAction::Ignore => peer_action(abs_path@, peer_root@, is_file, exists) is None,
            PeerAction::Upsert(r) => peer_action(abs_path@, peer_root@, is_file, exists) == Some((true, r@)),
            PeerAction::Delete(r) => peer_action(abs_path@, peer_root@, is_file, exists) == Some((false, r@)),
        },
{
    let rel = match crate::paths::to_workspace_relative(abs_path, peer_root) {
        None => return PeerAction::Ignore,
        Some(r) => r,
    };
    if !crate::paths::has_supported_extension(abs_path) {
        return PeerAction::Ignore;
    }
    if is_file {
        PeerAction::Upsert(rel)
    } else if !exists {
        PeerAction::Delete(rel)
    } else {
        PeerAction::Ignore
    }
}

/// Reads the stored watcher debounce (`schema_meta.watcher_debounce_ms`);
/// a malformed value is reported with the value itself.
pub fn debounce_ms_from_meta(value: &str) -> (r: Result<u64, String>)
    ensures
        match r {
            Ok(v) => crate::query::parse_unsigned(value@, u64::MAX as nat) == Some(v as nat),
            Err(m) => crate::query::parse_unsigned(value@, u64::MAX as nat) is None
                && m@ == "malformed watcher_debounce_ms: "@ + value@,
        },
{
    match crate::query::parse_u64(value) {
        Some(v) => Ok(v),
        None => {
            let mut out: Vec<char> = Vec::new();
            append_str(&mut out, "malformed watcher_debounce_ms: ");
            append_str(&mut out, value);
            Err(string_from_chars(out))
        },
    }
}

// ---------------------------------------------------------------------
// Peer lookup-data import
// ---------------------------------------------------------------------

/// How importing a peer's stored lookup data ended.
#[derive(Debug, Clone, PartialEq, Eq)]
pub enum PeerImportStatus {
    Imported,
    /// The peer has no index database.
    SkippedMissing,
    SkippedInactive,
    Failed(String),
}

/// Outcome of importing one peer's lookup rows.
#[derive(Debug, Clone, PartialEq, Eq)]
pub struct PeerImportStats {
    pub workspace_id: String,
    pub root_path: String,
    pub status: PeerImportStatus,
    pub module_lookups_imported: usize,
    pub workspace_imports_imported: usize,
}

/// Where a peer keeps its index: `<root>/.standardoc/index.db`.
pub fn peer_db_path(root_path: &str) -> (p: String)
    ensures
        p@ == crate::lockfiles::join_path(crate::lockfiles::join_path(root_path@, ".standardoc"@), "index.db"@),
{
    let dir = crate::lockfiles::join_str(root_path, ".standardoc");
    crate::lockfiles::join_str(dir.as_str(), "index.db")
}

/// The status a peer import gets before its database is opened.
pub fn import_preflight(active: bool, db_exists: bool) -> (r: Option<PeerImportStatus>)
    ensures
        !active ==> r == Some(PeerImportStatus::SkippedInactive),
        active && !db_exists ==> r == Some(PeerImportStatus::SkippedMissing),
        active && db_exists ==> r is None,
{
    if !active {
        Some(PeerImportStatus::SkippedInactive)
    } else if !db_exists {
        Some(PeerImportStatus::SkippedMissing)
    } else {
        None
    }
}

/// The failure status of a peer import, with the step that failed.
pub fn import_failure(opening: bool, detail: &str) -> (s: PeerImportStatus)
    ensures
        s matches PeerImportStatus::Failed(m) && m@ == (if opening {
            "open peer DB: "@
        } else {
            "import: "@
        }) + detail@,
{
    let mut out: Vec<char> = Vec::new();
    if opening {
        append_str(&mut out, "open peer DB: ");
    } else {
        append_str(&mut out, "import: ");
    }
    append_str(&mut out, detail);
    PeerImportStatus::Failed(string_from_chars(out))
}

} // verus!
