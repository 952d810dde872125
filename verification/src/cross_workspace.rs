//! Cross-workspace edge strengthening.
//!
//! An edge whose target does not start with the file's local crate
//! prefix is looked up in the linked workspaces, trying module/symbol
//! splits of the target longest-module-first: the first hit wins (with
//! any trailing segments appended to the hit FQDN), else the first
//! "known peer, missing symbol" answer, else nothing. A rewritten edge
//! is stamped and is no longer a candidate, so a second pass over a file
//! changes nothing. The lookups themselves go to the index; this module
//! decides what to ask and what to make of the answers.
use vstd::prelude::*;
use crate::paths::Language;
use crate::text::{append_str, starts_with, str_chars, string_from_chars};
use crate::workspace::{join_text, string_views};

verus! {

// ---------------------------------------------------------------------
// Splitting on a separator text
// ---------------------------------------------------------------------

/// First index at which `sep` occurs in `s` at or after `from`.
pub open spec fn find_from(s: Seq<char>, sep: Seq<char>, from: int) -> Option<int>
    decreases s.len() - from,
{
    if from < 0 || sep.len() == 0 || from + sep.len() > s.len() {
        None
    } else if s.subrange(from, from + sep.len()) == sep {
        Some(from)
    } else {
        find_from(s, sep, from + 1)
    }
}

/// `str::split(sep)` for a non-empty separator: the pieces between the
/// non-overlapping occurrences found left to right.
pub open spec fn split_sep(s: Seq<char>, sep: Seq<char>) -> Seq<Seq<char>>
    decreases s.len(),
{
    if sep.len() == 0 {
        seq![s]
    } else {
        match find_from(s, sep, 0) {
            None => seq![s],
            Some(i) => {
                proof {
                    lemma_find_from_range(s, sep, 0);
                }
                seq![s.take(i)] + split_sep(s.skip(i + sep.len()), sep)
            },
        }
    }
}

pub proof fn lemma_find_from_range(s: Seq<char>, sep: Seq<char>, from: int)
    ensures
        find_from(s, sep, from) matches Some(i) ==> from <= i && i + sep.len() <= s.len() && sep.len() > 0,
    decreases s.len() - from,
{
    if from >= 0 && sep.len() > 0 && from + sep.len() <= s.len() && s.subrange(from, from + sep.len()) != sep {
        lemma_find_from_range(s, sep, from + 1);
    }
}

fn occurs_at_str(s: &[char], sep: &[char], i: usize) -> (b: bool)
    requires
        i + sep.len() <= s.len(),
    ensures
        b == (s@.subrange(i as int, i + sep.len()) == sep@),
{
    let r = crate::text::matches_at(s, sep, i);
    r
}

/// Splits `s` at every non-overlapping occurrence of `sep` (non-empty).
pub fn split_on_text(s: &[char], sep: &[char]) -> (pieces: Vec<Vec<char>>)
    requires
        sep.len() > 0,
    ensures
        crate::text::views(pieces@) == split_sep(s@, sep@),
{
    let mut pieces: Vec<Vec<char>> = Vec::new();
    let mut start: usize = 0;
    let mut i: usize = 0;
    proof {
        assert(s@.skip(0) =~= s@);
    }
    while sep.len() <= s.len() - i
        invariant
            sep.len() > 0,
            start <= i <= s.len(),
            crate::text::views(pieces@) + split_sep(s@.skip(start as int), sep@) == split_sep(s@, sep@),
            find_from(s@.skip(start as int), sep@, 0) == find_from(s@.skip(start as int), sep@, (i - start) as int),
        decreases s.len() - i,
    {
        let ghost rest = s@.skip(start as int);
        let ghost k = (i - start) as int;
        assert(rest.subrange(k, k + sep.len()) =~= s@.subrange(i as int, i + sep.len()));
        if occurs_at_str(s, sep, i) {
            let piece = crate::text::subrange_vec(s, start, i);
            proof {
                assert(find_from(rest, sep@, k) == Some(k));
                assert(rest.take(k) =~= piece@);
                assert(rest.skip(k + sep.len()) =~= s@.skip(i + sep.len()));
                assert(split_sep(rest, sep@) == seq![piece@] + split_sep(s@.skip(i + sep.len()), sep@));
            }
            let ghost before = crate::text::views(pieces@);
            pieces.push(piece);
            assert(crate::text::views(pieces@) =~= before.push(piece@));
            start = i + sep.len();
            i = start;
            assert(crate::text::views(pieces@) + split_sep(s@.skip(start as int), sep@) =~= before + (
            seq![piece@] + split_sep(s@.skip(start as int), sep@)));
        } else {
            assert(find_from(rest, sep@, k) == find_from(rest, sep@, k + 1));
            i += 1;
        }
    }
    assert(find_from(s@.skip(start as int), sep@, (i - start) as int) is None);
    let last = crate::text::subrange_vec(s, start, s.len());
    assert(last@ =~= s@.skip(start as int));
    let ghost before = crate::text::views(pieces@);
    pieces.push(last);
    assert(crate::text::views(pieces@) =~= before.push(s@.skip(start as int)));
    pieces
}

// ---------------------------------------------------------------------
// Locality and attributes
// ---------------------------------------------------------------------

/// A target is local when it is the local prefix itself or a path
/// below it (`<prefix>::…`).
pub open spec fn local_to(fqdn: Seq<char>, prefix: Seq<char>) -> bool {
    fqdn == prefix || starts_with(fqdn, prefix + "::"@)
}

pub fn is_local(fqdn: &str, local_prefix: &str) -> (b: bool)
    ensures
        b == local_to(fqdn@, local_prefix@),
{
    let f = str_chars(fqdn);
    let p = str_chars(local_prefix);
    if crate::text::seq_eq(&f, &p) {
        return true;
    }
    let mut pp = p;
    append_str(&mut pp, "::");
    crate::text::has_prefix(&f, &pp)
}

/// The crate prefix of a module FQDN: what precedes the first `::`, or
/// the whole FQDN.
pub open spec fn local_prefix_of(module_fqdn: Seq<char>) -> Seq<char> {
    match find_from(module_fqdn, "::"@, 0) {
        Some(i) => module_fqdn.take(i),
        None => module_fqdn,
    }
}

pub fn local_prefix(module_fqdn: &str) -> (p: String)
    ensures
        p@ == local_prefix_of(module_fqdn@),
{
    let s = str_chars(module_fqdn);
    let sep = str_chars("::");
    proof {
        reveal_strlit("::");
    }
    let pieces = split_on_text(&s, &sep);
    proof {
        lemma_find_from_range(s@, sep@, 0);
        assert(sep@.len() == 2);
        assert(split_sep(s@, sep@).len() >= 1);
        assert(pieces@.len() >= 1);
        if let Some(i) = find_from(s@, sep@, 0) {
            assert(crate::text::views(pieces@)[0] == s@.take(i));
        } else {
            assert(crate::text::views(pieces@) == seq![s@]);
        }
        assert(crate::text::views(pieces@)[0] == pieces@[0]@);
    }
    let first = crate::text::chars_to_vec(&pieces[0]);
    string_from_chars(first)
}

/// Languages whose module FQDN starts with a single local crate prefix.
pub open spec fn prefix_language(lang: Language) -> bool {
    match lang {
        Language::Rust | Language::TypeScript | Language::JavaScript | Language::C | Language::Lua => true,
        _ => false,
    }
}

pub fn language_supports_workspace_prefix(lang: Language) -> (b: bool)
    ensures
        b == prefix_language(lang),
{
    match lang {
        Language::Rust | Language::TypeScript | Language::JavaScript | Language::C | Language::Lua => true,
        _ => false,
    }
}

/// The attributes after stamping a cross-workspace rewrite: the
/// `cross-workspace` marker and `peer-<id>` are each added when missing.
pub open spec fn stamped(attrs: Seq<Seq<char>>, workspace_id: Seq<char>) -> Seq<Seq<char>> {
    let a = if attrs.contains("cross-workspace"@) {
        attrs
    } else {
        attrs.push("cross-workspace"@)
    };
    let peer = "peer-"@ + workspace_id;
    if a.contains(peer) {
        a
    } else {
        a.push(peer)
    }
}

fn attrs_contain(attrs: &Vec<String>, a: &Vec<char>) -> (b: bool)
    ensures
        b == string_views(attrs@).contains(a@),
{
    let mut i: usize = 0;
    while i < attrs.len()
        invariant
            i <= attrs.len(),
            forall|j: int| 0 <= j < i ==> string_views(attrs@)[j] != a@,
        decreases attrs.len() - i,
    {
        let x = str_chars(attrs[i].as_str());
        if crate::text::seq_eq(&x, a) {
            assert(string_views(attrs@)[i as int] == a@);
            return true;
        }
        i += 1;
    }
    false
}

pub fn stamp_attrs(attrs: &mut Vec<String>, workspace_id: &str)
    ensures
        string_views(final(attrs)@) == stamped(string_views(old(attrs)@), workspace_id@),
{
    let marker = str_chars("cross-workspace");
    if !attrs_contain(attrs, &marker) {
        let ghost before = string_views(attrs@);
        attrs.push(string_from_chars(marker));
        assert(string_views(attrs@) =~= before.push("cross-workspace"@));
    }
    let mut peer: Vec<char> = Vec::new();
    append_str(&mut peer, "peer-");
    append_str(&mut peer, workspace_id);
    assert(peer@ =~= "peer-"@ + workspace_id@);
    if !attrs_contain(attrs, &peer) {
        let ghost before = string_views(attrs@);
        let ghost pv = peer@;
        attrs.push(string_from_chars(peer));
        assert(string_views(attrs@) =~= before.push(pv));
    }
}

/// Stamping twice with the same workspace adds nothing the second time.
pub proof fn lemma_stamp_idempotent(attrs: Seq<Seq<char>>, workspace_id: Seq<char>)
    ensures
        stamped(stamped(attrs, workspace_id), workspace_id) == stamped(attrs, workspace_id),
        stamped(attrs, workspace_id).contains("cross-workspace"@),
        stamped(attrs, workspace_id).contains("peer-"@ + workspace_id),
{
    let a = if attrs.contains("cross-workspace"@) {
        attrs
    } else {
        attrs.push("cross-workspace"@)
    };
    assert(a.contains("cross-workspace"@)) by {
        if !attrs.contains("cross-workspace"@) {
            assert(a[attrs.len() as int] == "cross-workspace"@);
        }
    }
    let peer = "peer-"@ + workspace_id;
    let b = stamped(attrs, workspace_id);
    assert(b.contains(peer)) by {
        if !a.contains(peer) {
            assert(b[a.len() as int] == peer);
        }
    }
    assert(b.contains("cross-workspace"@)) by {
        let k = choose|k: int| 0 <= k < a.len() && a[k] == "cross-workspace"@;
        assert(b[k] == a[k]);
    }
}

// ---------------------------------------------------------------------
// Lookups
// ---------------------------------------------------------------------

/// Answer of a linked-workspace lookup.
#[derive(Debug, Clone, PartialEq, Eq)]
pub enum CrossLookup {
    Hit { workspace_id: String, fqdn: String },
    KnownPeerMissingSymbol { workspace_id: String },
    Unknown,
}

/// Slug of the bridge an edge gets when its peer lacks the symbol.
pub open spec fn cross_workspace_bridge() -> Seq<char> {
    "custom:cross-workspace"@
}

/// Target of an extracted edge.
#[derive(Debug, Clone, PartialEq, Eq)]
pub enum EdgeTarget {
    Resolved { fqdn: String },
    Unresolved { name: String },
    UnresolvedBridge { bridge: String, name: String },
}

/// The text looked up for an edge target: its FQDN or raw name; bridges
/// are left alone.
pub fn edge_candidate(target: &EdgeTarget) -> (c: Option<String>)
    ensures
        match target {
            EdgeTarget::Resolved { fqdn } => c matches Some(x) && x@ == fqdn@,
            EdgeTarget::Unresolved { name } => c matches Some(x) && x@ == name@,
            EdgeTarget::UnresolvedBridge { .. } => c is None,
        },
{
    match target {
        EdgeTarget::Resolved { fqdn } => Some(fqdn.clone()),
        EdgeTarget::Unresolved { name } => Some(name.clone()),
        EdgeTarget::UnresolvedBridge { .. } => None,
    }
}

/// The rewritten target and the peer to stamp, for a lookup answer:
/// a hit resolves the edge to the peer's FQDN, a known peer without the
/// symbol turns it into a cross-workspace bridge, an unknown leaves it.
pub fn rewrite_target(outcome: CrossLookup, candidate: String) -> (r: Option<(EdgeTarget, String)>)
    ensures
        match outcome {
            CrossLookup::Hit { workspace_id, fqdn } => match r {
                Some((EdgeTarget::Resolved { fqdn: f }, w)) => w@ == workspace_id@ && f@ == fqdn@,
                _ => false,
            },
            CrossLookup::KnownPeerMissingSymbol { workspace_id } => match r {
                Some((EdgeTarget::UnresolvedBridge { bridge, name }, w)) => w@ == workspace_id@
                    && bridge@ == cross_workspace_bridge() && name@ == candidate@,
                _ => false,
            },
            CrossLookup::Unknown => r is None,
        },
{
    match outcome {
        CrossLookup::Hit { workspace_id, fqdn } => Some((EdgeTarget::Resolved { fqdn }, workspace_id)),
        CrossLookup::KnownPeerMissingSymbol { workspace_id } => {
            let mut b: Vec<char> = Vec::new();
            append_str(&mut b, "custom:cross-workspace");
            Some((EdgeTarget::UnresolvedBridge { bridge: string_from_chars(b), name: candidate }, workspace_id))
        },
        CrossLookup::Unknown => None,
    }
}

// ---------------------------------------------------------------------
// Rewriting an edge
// ---------------------------------------------------------------------

/// An extracted edge as the rewrite reads and changes it: its target and
/// its attributes.
#[derive(Debug, Clone, PartialEq, Eq)]
pub struct ExtractedEdge {
    pub to: EdgeTarget,
    pub attributes: Vec<String>,
}

/// An edge target with its texts as sequences.
pub enum TargetText {
    Resolved(Seq<char>),
    Unresolved(Seq<char>),
    Bridge(Seq<char>, Seq<char>),
}

pub open spec fn target_text_of(t: EdgeTarget) -> TargetText {
    match t {
        EdgeTarget::Resolved { fqdn } => TargetText::Resolved(fqdn@),
        EdgeTarget::Unresolved { name } => TargetText::Unresolved(name@),
        EdgeTarget::UnresolvedBridge { bridge, name } => TargetText::Bridge(bridge@, name@),
    }
}

pub type EdgeText = (TargetText, Seq<Seq<char>>);

pub open spec fn edge_text(e: ExtractedEdge) -> EdgeText {
    (target_text_of(e.to), string_views(e.attributes@))
}

/// A lookup answer with its texts as sequences.
pub enum LookupAnswer {
    Hit(Seq<char>, Seq<char>),
    Missing(Seq<char>),
    Unknown,
}

pub open spec fn lookup_answer(o: CrossLookup) -> LookupAnswer {
    match o {
        CrossLookup::Hit { workspace_id, fqdn } => LookupAnswer::Hit(workspace_id@, fqdn@),
        CrossLookup::KnownPeerMissingSymbol { workspace_id } => LookupAnswer::Missing(workspace_id@),
        CrossLookup::Unknown => LookupAnswer::Unknown,
    }
}

/// The text an edge is looked up by, if any: not for an edge the rewrite
/// already stamped (it is no longer a candidate), not for a bridge, not
/// for a target inside the local crate.
pub open spec fn lookup_text(e: EdgeText, local_prefix: Seq<char>) -> Option<Seq<char>> {
    let c = match e.0 {
        TargetText::Resolved(f) => Some(f),
        TargetText::Unresolved(n) => Some(n),
        TargetText::Bridge(_, _) => None,
    };
    if e.1.contains("cross-workspace"@) {
        None
    } else {
        match c {
            Some(t) => if local_to(t, local_prefix) {
                None
            } else {
                Some(t)
            },
            None => None,
        }
    }
}

/// The edge after the lookup of `candidate` answered `a`: a hit resolves
/// it to the peer's FQDN, a known peer without the symbol makes it a
/// cross-workspace bridge, both stamping the attributes; an unknown
/// leaves it.
pub open spec fn answered(e: EdgeText, candidate: Seq<char>, a: LookupAnswer) -> EdgeText {
    match a {
        LookupAnswer::Hit(w, f) => (TargetText::Resolved(f), stamped(e.1, w)),
        LookupAnswer::Missing(w) => (TargetText::Bridge(cross_workspace_bridge(), candidate), stamped(e.1, w)),
        LookupAnswer::Unknown => e,
    }
}

/// One pass of the rewrite over an edge, with the linked workspaces
/// answering lookups through `answer`.
pub open spec fn rewritten(e: EdgeText, local_prefix: Seq<char>, answer: spec_fn(Seq<char>) -> LookupAnswer) -> EdgeText {
    match lookup_text(e, local_prefix) {
        None => e,
        Some(c) => answered(e, c, answer(c)),
    }
}

/// What to look up for an edge (see [`lookup_text`]).
pub fn edge_lookup(edge: &ExtractedEdge, local_prefix: &str) -> (r: Option<String>)
    ensures
        match r {
            Some(c) => lookup_text(edge_text(*edge), local_prefix@) == Some(c@),
            None => lookup_text(edge_text(*edge), local_prefix@) is None,
        },
{
    let marker = str_chars("cross-workspace");
    if attrs_contain(&edge.attributes, &marker) {
        return None;
    }
    match edge_candidate(&edge.to) {
        None => None,
        Some(c) => if is_local(c.as_str(), local_prefix) {
            None
        } else {
            Some(c)
        },
    }
}

/// Applies the answer to the lookup of `candidate` to the edge.
pub fn apply_lookup(edge: &mut ExtractedEdge, candidate: String, outcome: CrossLookup)
    ensures
        edge_text(*final(edge)) == answered(edge_text(*old(edge)), candidate@, lookup_answer(outcome)),
{
    let ghost c = candidate@;
    let ghost a = lookup_answer(outcome);
    match rewrite_target(outcome, candidate) {
        None => {},
        Some((to, workspace_id)) => {
            edge.to = to;
            stamp_attrs(&mut edge.attributes, workspace_id.as_str());
        },
    }
    proof {
        reveal_strlit("custom:cross-workspace");
    }
}

/// The rewrite is idempotent: with the linked workspaces answering the
/// same way, a second pass over a rewritten edge changes nothing (a
/// rewritten edge is stamped and no longer a candidate; an edge the
/// lookup left alone gets the same answer again).
pub proof fn lemma_rewrite_idempotent(e: EdgeText, local_prefix: Seq<char>, answer: spec_fn(Seq<char>) -> LookupAnswer)
    ensures
        rewritten(rewritten(e, local_prefix, answer), local_prefix, answer) == rewritten(e, local_prefix, answer),
{
    match lookup_text(e, local_prefix) {
        None => {},
        Some(c) => match answer(c) {
            LookupAnswer::Hit(w, f) => {
                lemma_stamp_idempotent(e.1, w);
            },
            LookupAnswer::Missing(w) => {
                lemma_stamp_idempotent(e.1, w);
            },
            LookupAnswer::Unknown => {},
        },
    }
}

// ---------------------------------------------------------------------
// Rewriting a file
// ---------------------------------------------------------------------

/// The local prefix the rewrite of a file works with: none for a file
/// without a module lookup, for a language whose module FQDN carries no
/// crate prefix, or for an empty prefix (the file is then left as is).
pub open spec fn rewrite_prefix(module: Option<(Language, Seq<char>)>) -> Option<Seq<char>> {
    match module {
        None => None,
        Some((lang, fqdn)) => if prefix_language(lang) && local_prefix_of(fqdn).len() > 0 {
            Some(local_prefix_of(fqdn))
        } else {
            None
        },
    }
}

/// The prefix of [`rewrite_prefix`] for a file whose module lookup gives
/// `lang` and `module_fqdn`.
pub fn file_rewrite_prefix(lang: Language, module_fqdn: &str) -> (r: Option<String>)
    ensures
        match r {
            Some(p) => rewrite_prefix(Some((lang, module_fqdn@))) == Some(p@),
            None => rewrite_prefix(Some((lang, module_fqdn@))) is None,
        },
{
    if !language_supports_workspace_prefix(lang) {
        return None;
    }
    let p = local_prefix(module_fqdn);
    if p.as_str().is_empty() {
        None
    } else {
        Some(p)
    }
}

pub open spec fn edge_texts(edges: Seq<ExtractedEdge>) -> Seq<EdgeText> {
    edges.map_values(|e: ExtractedEdge| edge_text(e))
}

/// An edge after its lookup (if it has one) was answered `a`.
pub open spec fn rewritten_with(e: EdgeText, local_prefix: Seq<char>, a: LookupAnswer) -> EdgeText {
    match lookup_text(e, local_prefix) {
        None => e,
        Some(c) => answered(e, c, a),
    }
}

/// Every edge of a file after its lookup was answered by the answer at
/// its own position.
pub open spec fn answered_file(edges: Seq<EdgeText>, local_prefix: Seq<char>, answers: Seq<LookupAnswer>) -> Seq<EdgeText> {
    Seq::new(edges.len(), |i: int| rewritten_with(edges[i], local_prefix, answers[i]))
}

/// One pass of the rewrite over every edge of a file, the linked
/// workspaces answering lookups through `answer`.
pub open spec fn rewritten_file(edges: Seq<EdgeText>, local_prefix: Seq<char>, answer: spec_fn(Seq<char>) -> LookupAnswer) -> Seq<EdgeText> {
    Seq::new(edges.len(), |i: int| rewritten(edges[i], local_prefix, answer))
}

/// The edges of an extracted file after one rewrite pass: unchanged
/// when the file has no rewrite prefix.
pub open spec fn rewritten_extracted(
    module: Option<(Language, Seq<char>)>,
    edges: Seq<EdgeText>,
    answer: spec_fn(Seq<char>) -> LookupAnswer,
) -> Seq<EdgeText> {
    match rewrite_prefix(module) {
        None => edges,
        Some(p) => rewritten_file(edges, p, answer),
    }
}

/// What each edge of a file is looked up by (see [`lookup_text`]), in
/// edge order.
pub fn file_lookups(edges: &Vec<ExtractedEdge>, local_prefix: &str) -> (r: Vec<Option<String>>)
    ensures
        r@.len() == edges@.len(),
        forall|i: int| 0 <= i < r@.len() ==> match #[trigger] r@[i] {
            Some(c) => lookup_text(edge_text(edges@[i]), local_prefix@) == Some(c@),
            None => lookup_text(edge_text(edges@[i]), local_prefix@) is None,
        },
{
    let mut r: Vec<Option<String>> = Vec::new();
    let mut i: usize = 0;
    while i < edges.len()
        invariant
            i <= edges.len(),
            r@.len() == i,
            forall|k: int| 0 <= k < r@.len() ==> match #[trigger] r@[k] {
                Some(c) => lookup_text(edge_text(edges@[k]), local_prefix@) == Some(c@),
                None => lookup_text(edge_text(edges@[k]), local_prefix@) is None,
            },
        decreases edges.len() - i,
    {
        let l = edge_lookup(&edges[i], local_prefix);
        r.push(l);
        i += 1;
    }
    r
}

/// Rewrites every edge of a file with the answer at its position
/// (`answers[i]` answers the lookup of edge `i`; it is not read for an
/// edge with no lookup).
pub fn rewrite_file_edges(edges: &mut Vec<ExtractedEdge>, local_prefix: &str, answers: Vec<CrossLookup>)
    requires
        answers@.len() == old(edges)@.len(),
    ensures
        edge_texts(final(edges)@) == answered_file(
            edge_texts(old(edges)@),
            local_prefix@,
            answers@.map_values(|o: CrossLookup| lookup_answer(o)),
        ),
{
    let ghost e0 = edge_texts(edges@);
    let ghost a0 = answers@.map_values(|o: CrossLookup| lookup_answer(o));
    let mut answers = answers;
    let mut i: usize = edges.len();
    while i > 0
        invariant
            i <= edges@.len(),
            e0.len() == edges@.len(),
            a0.len() == edges@.len(),
            answers@.len() == i,
            forall|k: int| 0 <= k < i ==> lookup_answer(#[trigger] answers@[k]) == a0[k],
            forall|k: int| 0 <= k < i ==> edge_text(#[trigger] edges@[k]) == e0[k],
            forall|k: int| i <= k < edges@.len() ==> edge_text(#[trigger] edges@[k]) == rewritten_with(e0[k], local_prefix@, a0[k]),
        decreases i,
    {
        i -= 1;
        let a = answers.pop().unwrap();
        assert(lookup_answer(a) == a0[i as int]);
        let lookup = edge_lookup(&edges[i], local_prefix);
        match lookup {
            Some(c) => {
                let ghost before = edges@;
                apply_lookup(&mut edges[i], c, a);
                assert forall|k: int| 0 <= k < edges@.len() && k != i implies edges@[k] == before[k] by {}
            },
            None => {},
        }
    }
    assert(edge_texts(edges@) =~= answered_file(e0, local_prefix@, a0));
}

/// Answers given by one deterministic lookup make the per-position
/// rewrite the same as a pass of [`rewritten_file`].
pub proof fn lemma_answers_from_lookup(
    edges: Seq<EdgeText>,
    local_prefix: Seq<char>,
    answers: Seq<LookupAnswer>,
    answer: spec_fn(Seq<char>) -> LookupAnswer,
)
    requires
        answers.len() == edges.len(),
        forall|i: int| 0 <= i < edges.len() ==> (lookup_text(#[trigger] edges[i], local_prefix) matches Some(c)
            ==> answers[i] == answer(c)),
    ensures
        answered_file(edges, local_prefix, answers) == rewritten_file(edges, local_prefix, answer),
{
    assert(answered_file(edges, local_prefix, answers) =~= rewritten_file(edges, local_prefix, answer));
}

/// The rewrite of a file is idempotent: with the linked workspaces
/// answering the same way, a second pass over the edges of a rewritten
/// file leaves every edge as the first pass left it.
pub proof fn lemma_file_rewrite_idempotent(
    module: Option<(Language, Seq<char>)>,
    edges: Seq<EdgeText>,
    answer: spec_fn(Seq<char>) -> LookupAnswer,
)
    ensures
        rewritten_extracted(module, rewritten_extracted(module, edges, answer), answer)
            == rewritten_extracted(module, edges, answer),
{
    match rewrite_prefix(module) {
        None => {},
        Some(p) => {
            let once = rewritten_file(edges, p, answer);
            assert forall|i: int| 0 <= i < once.len() implies #[trigger] rewritten(once[i], p, answer) == once[i] by {
                lemma_rewrite_idempotent(edges[i], p, answer);
            }
            assert(rewritten_file(once, p, answer) =~= once);
        },
    }
}

// ---------------------------------------------------------------------
// Suffix chain
// ---------------------------------------------------------------------

/// `segs[..k]` joined with `::` (the module asked about).
pub open spec fn split_prefix(segs: Seq<Seq<char>>, k: int) -> Seq<char> {
    join_text(segs.take(k), "::"@)
}

/// `segs[k + 1..]` joined with `::` when non-empty (kept after a hit).
pub open spec fn split_tail(segs: Seq<Seq<char>>, k: int) -> Option<Seq<char>> {
    if k + 1 < segs.len() {
        Some(join_text(segs.skip(k + 1), "::"@))
    } else {
        None
    }
}

/// Walk over the module/symbol splits of a target, longest module first.
pub struct SuffixChain {
    segments: Vec<Vec<char>>,
    /// The next split to try; 0 once every split was tried.
    split: usize,
    fallback: Option<String>,
}

impl SuffixChain {
    pub closed spec fn segs(&self) -> Seq<Seq<char>> {
        crate::text::views(self.segments@)
    }

    pub closed spec fn next_split(&self) -> nat {
        self.split as nat
    }

    pub closed spec fn fallback_view(&self) -> Option<Seq<char>> {
        match self.fallback {
            Some(w) => Some(w@),
            None => None,
        }
    }

    pub open spec fn well_formed(&self) -> bool {
        self.next_split() < self.segs().len()
    }

    /// Starts the walk; `None` when the target has no `::` (nothing to split).
    pub fn new(candidate: &str) -> (r: Option<Self>)
        ensures
            r is None <==> split_sep(candidate@, "::"@).len() < 2,
            r matches Some(c) ==> c.well_formed() && c.segs() == split_sep(candidate@, "::"@)
                && c.next_split() == c.segs().len() - 1 && c.fallback_view() is None,
    {
        let s = str_chars(candidate);
        let sep = str_chars("::");
        proof {
            reveal_strlit("::");
        }
        let segments = split_on_text(&s, &sep);
        if segments.len() < 2 {
            return None;
        }
        let n = segments.len();
        Some(SuffixChain { segments, split: n - 1, fallback: None })
    }

    /// The `(module, symbol)` pair to look up next, or `None` when every
    /// split was tried.
    pub fn next_query(&self) -> (r: Option<(String, String)>)
        requires
            self.well_formed(),
        ensures
            self.next_split() == 0 <==> r is None,
            r matches Some((m, h)) ==> m@ == split_prefix(self.segs(), self.next_split() as int)
                && h@ == self.segs()[self.next_split() as int],
    {
        if self.split == 0 {
            return None;
        }
        let prefix = join_segments(&self.segments, 0, self.split);
        assert(self.segs().subrange(0, self.split as int) =~= self.segs().take(self.split as int));
        let head = crate::text::chars_to_vec(&self.segments[self.split]);
        Some((string_from_chars(prefix), string_from_chars(head)))
    }

    /// Feeds the answer for the pair [`Self::next_query`] gave. A hit ends
    /// the walk with the hit FQDN extended by the unsplit tail; a known
    /// peer missing the symbol is remembered (the first one only); then
    /// the next shorter module is tried.
    pub fn feed(&mut self, answer: CrossLookup) -> (done: Option<CrossLookup>)
        requires
            old(self).well_formed(),
            old(self).next_split() > 0,
        ensures
            final(self).well_formed(),
            final(self).segs() == old(self).segs(),
            match answer {
                CrossLookup::Hit { workspace_id, fqdn } => done matches Some(CrossLookup::Hit { workspace_id: w, fqdn: f })
                    && w@ == workspace_id@ && f@ == match split_tail(old(self).segs(), old(self).next_split() as int) {
                        Some(t) => fqdn@ + "::"@ + t,
                        None => fqdn@,
                    },
                CrossLookup::KnownPeerMissingSymbol { workspace_id } => done is None
                    && final(self).next_split() == old(self).next_split() - 1
                    && final(self).fallback_view() == match old(self).fallback_view() {
                        Some(w) => Some(w),
                        None => Some(workspace_id@),
                    },
                CrossLookup::Unknown => done is None && final(self).next_split() == old(self).next_split() - 1
                    && final(self).fallback_view() == old(self).fallback_view(),
            },
    {
        match answer {
            CrossLookup::Hit { workspace_id, fqdn } => {
                let n = self.segments.len();
                let k = self.split;
                let mut out = str_chars(fqdn.as_str());
                if k + 1 < n {
                    let tail = join_segments(&self.segments, k + 1, n);
                    assert(self.segs().subrange(k + 1, n as int) =~= self.segs().skip(k + 1));
                    append_str(&mut out, "::");
                    crate::text::push_all(&mut out, &tail);
                }
                Some(CrossLookup::Hit { workspace_id, fqdn: string_from_chars(out) })
            },
            CrossLookup::KnownPeerMissingSymbol { workspace_id } => {
                if self.fallback.is_none() {
                    self.fallback = Some(workspace_id);
                }
                self.split = self.split - 1;
                None
            },
            CrossLookup::Unknown => {
                self.split = self.split - 1;
                None
            },
        }
    }

    /// The answer once every split was tried without a hit: the first
    /// known-peer-missing-symbol answer, if any.
    pub fn finish(self) -> (r: Option<CrossLookup>)
        ensures
            match self.fallback_view() {
                Some(w) => r matches Some(CrossLookup::KnownPeerMissingSymbol { workspace_id }) && workspace_id@ == w,
                None => r is None,
            },
    {
        match self.fallback {
            Some(w) => Some(CrossLookup::KnownPeerMissingSymbol { workspace_id: w }),
            None => None,
        }
    }
}

/// `segs[from..to]` joined with `::`.
fn join_segments(segs: &Vec<Vec<char>>, from: usize, to: usize) -> (out: Vec<char>)
    requires
        from <= to <= segs.len(),
    ensures
        out@ == join_text(crate::text::views(segs@).subrange(from as int, to as int), "::"@),
{
    let ghost v = crate::text::views(segs@);
    let mut out: Vec<char> = Vec::new();
    let mut i: usize = from;
    assert(v.subrange(from as int, from as int) =~= Seq::<Seq<char>>::empty());
    while i < to
        invariant
            from <= i <= to <= segs.len(),
            v == crate::text::views(segs@),
            out@ == join_text(v.subrange(from as int, i as int), "::"@),
        decreases to - i,
    {
        assert(v.subrange(from as int, i + 1).drop_last() =~= v.subrange(from as int, i as int));
        assert(v.subrange(from as int, i + 1).last() == segs@[i as int]@);
        if i > from {
            append_str(&mut out, "::");
        } else {
            assert(v.subrange(from as int, i + 1) =~= seq![segs@[i as int]@]);
        }
        crate::text::push_all(&mut out, &segs[i]);
        i += 1;
    }
    out
}

} // verus!
