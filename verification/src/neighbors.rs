//! The neighbourhood view of a symbol: its outgoing and incoming edges
//! grouped by kind (calls, imports, every other kind), and the subset of
//! callers and dependents that look like test code.
//!
//! The edges themselves, and the symbols of their endpoints, come from the
//! index; this module decides what is looked up and how the answer is laid
//! out.
use vstd::prelude::*;
use crate::cross_workspace::EdgeTarget;
use crate::lookup::{SymbolRef, SymbolRefView};
use crate::text::{contains_lit, contains_sub, ends_with, ends_with_lit, str_chars};

verus! {

/// Kind of a graph edge.
#[derive(Debug, Clone, Copy, PartialEq, Eq, Structural)]
pub enum EdgeKind {
    Calls,
    Imports,
    Extends,
    Implements,
    References,
    UsesType,
}

/// One neighbour: the edge kind that links it, its (resolved or
/// unresolved) reference, and its symbol when one was looked up.
#[derive(Debug)]
pub struct NeighborSymbol {
    pub edge_kind: EdgeKind,
    pub target: EdgeTarget,
    pub resolved_symbol: Option<SymbolRef>,
}

/// The neighbour lists of a symbol.
#[derive(Debug)]
pub struct NeighborGroups {
    /// Incoming `Calls` edges.
    pub callers: Vec<NeighborSymbol>,
    /// Outgoing `Calls` edges.
    pub callees: Vec<NeighborSymbol>,
    /// Outgoing `Imports` edges.
    pub imports: Vec<NeighborSymbol>,
    /// Incoming `Imports` edges.
    pub imported_by: Vec<NeighborSymbol>,
    /// Incoming edges of every other kind.
    pub dependents: Vec<NeighborSymbol>,
    /// Outgoing edges of every other kind.
    pub depends_on: Vec<NeighborSymbol>,
    /// The callers, then the dependents, that look like test code.
    pub tests: Vec<NeighborSymbol>,
}

/// An edge target with its texts as sequences.
pub enum TargetView {
    Resolved(Seq<char>),
    Unresolved(Seq<char>),
    Bridge(Seq<char>, Seq<char>),
}

pub open spec fn target_view(t: EdgeTarget) -> TargetView {
    match t {
        EdgeTarget::Resolved { fqdn } => TargetView::Resolved(fqdn@),
        EdgeTarget::Unresolved { name } => TargetView::Unresolved(name@),
        EdgeTarget::UnresolvedBridge { bridge, name } => TargetView::Bridge(bridge@, name@),
    }
}

pub type NeighborView = (EdgeKind, TargetView, Option<SymbolRefView>);

pub open spec fn symbol_ref_view(s: SymbolRef) -> SymbolRefView {
    (s.fqdn@, s.file@, s.is_external)
}

pub open spec fn neighbor_view(n: NeighborSymbol) -> NeighborView {
    (
        n.edge_kind,
        target_view(n.target),
        match n.resolved_symbol {
            Some(s) => Some(symbol_ref_view(s)),
            None => None,
        },
    )
}

pub open spec fn neighbor_views(s: Seq<NeighborSymbol>) -> Seq<NeighborView> {
    s.map_values(|n: NeighborSymbol| neighbor_view(n))
}

/// Which list an edge kind lands in: 0 for calls, 1 for imports, 2 for
/// every other kind.
pub open spec fn kind_group(k: EdgeKind) -> int {
    match k {
        EdgeKind::Calls => 0,
        EdgeKind::Imports => 1,
        _ => 2,
    }
}

/// The neighbours of `s` whose edge kind lands in `group`, in order.
pub open spec fn in_group(s: Seq<NeighborView>, group: int) -> Seq<NeighborView>
    decreases s.len(),
{
    if s.len() == 0 {
        Seq::empty()
    } else if kind_group(s.last().0) == group {
        in_group(s.drop_last(), group).push(s.last())
    } else {
        in_group(s.drop_last(), group)
    }
}

/// The text a neighbour is recognised by: its FQDN or its raw name.
pub open spec fn target_text(t: TargetView) -> Seq<char> {
    match t {
        TargetView::Resolved(f) => f,
        TargetView::Unresolved(n) => n,
        TargetView::Bridge(_, n) => n,
    }
}

/// Test-module naming conventions as seen from a neighbour's FQDN.
pub open spec fn neighbor_text_test_like(f: Seq<char>) -> bool {
    ||| contains_sub(f, "::tests::"@)
    ||| contains_sub(f, "::test::"@)
    ||| ends_with(f, "_test"@)
    ||| ends_with(f, "_tests"@)
    ||| ends_with(f, ".test"@)
    ||| ends_with(f, ".spec"@)
}

/// The neighbours of `s` that look like test code, in order.
pub open spec fn test_like(s: Seq<NeighborView>) -> Seq<NeighborView>
    decreases s.len(),
{
    if s.len() == 0 {
        Seq::empty()
    } else if neighbor_text_test_like(target_text(s.last().1)) {
        test_like(s.drop_last()).push(s.last())
    } else {
        test_like(s.drop_last())
    }
}

/// Depth clamped to `1..=2`.
pub open spec fn clamped_depth(depth: u8) -> u8 {
    if depth < 1 {
        1
    } else if depth > 2 {
        2
    } else {
        depth
    }
}

/// The neighbourhood depth actually used: 1 (edges only) or 2 (edges
/// with the symbols of resolved endpoints).
pub fn clamp_depth(depth: u8) -> (d: u8)
    ensures
        d == clamped_depth(depth),
{
    if depth < 1 {
        1
    } else if depth > 2 {
        2
    } else {
        depth
    }
}

/// Whether a neighbour's FQDN (or raw name) follows a test naming
/// convention: `::tests::` / `::test::` segments, `_test` / `_tests` /
/// `.test` / `.spec` endings.
pub fn neighbor_looks_like_test(n: &NeighborSymbol) -> (b: bool)
    ensures
        b == neighbor_text_test_like(target_text(target_view(n.target))),
{
    let text = match &n.target {
        EdgeTarget::Resolved { fqdn } => str_chars(fqdn.as_str()),
        EdgeTarget::Unresolved { name } => str_chars(name.as_str()),
        EdgeTarget::UnresolvedBridge { name, .. } => str_chars(name.as_str()),
    };
    contains_lit(&text, "::tests::") || contains_lit(&text, "::test::") || ends_with_lit(
        &text,
        "_test",
    ) || ends_with_lit(&text, "_tests") || ends_with_lit(&text, ".test") || ends_with_lit(
        &text,
        ".spec",
    )
}

/// The FQDN whose symbol an outgoing neighbour carries: at depth 2 and
/// for a resolved target only.
pub fn outbound_lookup(target: &EdgeTarget, depth: u8) -> (r: Option<String>)
    ensures
        match r {
            Some(f) => depth >= 2 && target_view(*target) == TargetView::Resolved(f@),
            None => depth < 2 || !(target is Resolved),
        },
{
    if depth >= 2 {
        match target {
            EdgeTarget::Resolved { fqdn } => Some(fqdn.clone()),
            _ => None,
        }
    } else {
        None
    }
}

/// The FQDN whose symbol an incoming neighbour carries: its source, at
/// depth 2.
pub fn inbound_lookup(from_fqdn: &String, depth: u8) -> (r: Option<String>)
    ensures
        match r {
            Some(f) => depth >= 2 && f@ == from_fqdn@,
            None => depth < 2,
        },
{
    if depth >= 2 {
        Some(from_fqdn.clone())
    } else {
        None
    }
}

/// An outgoing neighbour. `found` is the answer to [`outbound_lookup`];
/// it is kept only where that lookup was due.
pub fn neighbor_outbound(kind: EdgeKind, target: EdgeTarget, depth: u8, found: Option<SymbolRef>) -> (n:
    NeighborSymbol)
    ensures
        n.edge_kind == kind,
        n.target == target,
        n.resolved_symbol == (if depth >= 2 && target is Resolved {
            found
        } else {
            None
        }),
{
    let keep = depth >= 2 && match &target {
        EdgeTarget::Resolved { .. } => true,
        _ => false,
    };
    NeighborSymbol {
        edge_kind: kind,
        target,
        resolved_symbol: if keep {
            found
        } else {
            None
        },
    }
}

/// An incoming neighbour: the edge's source as a resolved target.
/// `found` is the answer to [`inbound_lookup`]; it is kept at depth 2.
pub fn neighbor_inbound(kind: EdgeKind, from_fqdn: String, depth: u8, found: Option<SymbolRef>) -> (n:
    NeighborSymbol)
    ensures
        n.edge_kind == kind,
        target_view(n.target) == TargetView::Resolved(from_fqdn@),
        n.resolved_symbol == (if depth >= 2 {
            found
        } else {
            None
        }),
{
    NeighborSymbol {
        edge_kind: kind,
        target: EdgeTarget::Resolved { fqdn: from_fqdn },
        resolved_symbol: if depth >= 2 {
            found
        } else {
            None
        },
    }
}

fn copy_target(t: &EdgeTarget) -> (r: EdgeTarget)
    ensures
        target_view(r) == target_view(*t),
{
    match t {
        EdgeTarget::Resolved { fqdn } => EdgeTarget::Resolved { fqdn: fqdn.clone() },
        EdgeTarget::Unresolved { name } => EdgeTarget::Unresolved { name: name.clone() },
        EdgeTarget::UnresolvedBridge { bridge, name } => EdgeTarget::UnresolvedBridge {
            bridge: bridge.clone(),
            name: name.clone(),
        },
    }
}

fn copy_neighbor(n: &NeighborSymbol) -> (r: NeighborSymbol)
    ensures
        neighbor_view(r) == neighbor_view(*n),
{
    let resolved_symbol = match &n.resolved_symbol {
        Some(s) => Some(
            SymbolRef { fqdn: s.fqdn.clone(), file: s.file.clone(), is_external: s.is_external },
        ),
        None => None,
    };
    NeighborSymbol { edge_kind: n.edge_kind, target: copy_target(&n.target), resolved_symbol }
}

fn kind_group_of(k: EdgeKind) -> (g: u8)
    ensures
        g == kind_group(k),
{
    match k {
        EdgeKind::Calls => 0,
        EdgeKind::Imports => 1,
        _ => 2,
    }
}

fn select_group(src: &Vec<NeighborSymbol>, group: u8) -> (out: Vec<NeighborSymbol>)
    ensures
        neighbor_views(out@) == in_group(neighbor_views(src@), group as int),
{
    let mut out: Vec<NeighborSymbol> = Vec::new();
    let mut i: usize = 0;
    while i < src.len()
        invariant
            i <= src.len(),
            neighbor_views(out@) == in_group(neighbor_views(src@).take(i as int), group as int),
        decreases src.len() - i,
    {
        let ghost before = neighbor_views(out@);
        let ghost pre = neighbor_views(src@).take(i as int);
        let ghost next = neighbor_views(src@).take(i + 1);
        assert(next.drop_last() =~= pre);
        assert(next.last() == neighbor_view(src@[i as int]));
        if kind_group_of(src[i].edge_kind) == group {
            let c = copy_neighbor(&src[i]);
            out.push(c);
            assert(neighbor_views(out@) =~= before.push(neighbor_view(c)));
        }
        i += 1;
    }
    assert(neighbor_views(src@).take(src.len() as int) =~= neighbor_views(src@));
    out
}

fn append_test_like(out: &mut Vec<NeighborSymbol>, src: &Vec<NeighborSymbol>)
    ensures
        neighbor_views(final(out)@) == neighbor_views(old(out)@) + test_like(neighbor_views(src@)),
{
    let ghost start = neighbor_views(out@);
    let mut i: usize = 0;
    while i < src.len()
        invariant
            i <= src.len(),
            neighbor_views(out@) == start + test_like(neighbor_views(src@).take(i as int)),
        decreases src.len() - i,
    {
        let ghost before = neighbor_views(out@);
        let ghost pre = neighbor_views(src@).take(i as int);
        let ghost next = neighbor_views(src@).take(i + 1);
        assert(next.drop_last() =~= pre);
        assert(next.last() == neighbor_view(src@[i as int]));
        if neighbor_looks_like_test(&src[i]) {
            let c = copy_neighbor(&src[i]);
            out.push(c);
            assert(neighbor_views(out@) =~= before.push(neighbor_view(c)));
            assert(start + test_like(next) =~= (start + test_like(pre)).push(neighbor_view(c)));
        }
        i += 1;
    }
    assert(neighbor_views(src@).take(src.len() as int) =~= neighbor_views(src@));
}

/// Lays out a symbol's neighbours: outgoing edges into callees, imports
/// and depends-on; incoming edges into callers, imported-by and
/// dependents; each list in edge order. `tests` holds the callers, then
/// the dependents, that look like test code.
pub fn group_neighbors(outbound: &Vec<NeighborSymbol>, inbound: &Vec<NeighborSymbol>) -> (g:
    NeighborGroups)
    ensures
        neighbor_views(g.callees@) == in_group(neighbor_views(outbound@), 0),
        neighbor_views(g.imports@) == in_group(neighbor_views(outbound@), 1),
        neighbor_views(g.depends_on@) == in_group(neighbor_views(outbound@), 2),
        neighbor_views(g.callers@) == in_group(neighbor_views(inbound@), 0),
        neighbor_views(g.imported_by@) == in_group(neighbor_views(inbound@), 1),
        neighbor_views(g.dependents@) == in_group(neighbor_views(inbound@), 2),
        neighbor_views(g.tests@) == test_like(neighbor_views(g.callers@)) + test_like(
            neighbor_views(g.dependents@),
        ),
{
    let callees = select_group(outbound, 0);
    let imports = select_group(outbound, 1);
    let depends_on = select_group(outbound, 2);
    let callers = select_group(inbound, 0);
    let imported_by = select_group(inbound, 1);
    let dependents = select_group(inbound, 2);
    let mut tests: Vec<NeighborSymbol> = Vec::new();
    append_test_like(&mut tests, &callers);
    append_test_like(&mut tests, &dependents);
    proof {
        assert(neighbor_views(Seq::<NeighborSymbol>::empty()) =~= Seq::<NeighborView>::empty());
        assert(Seq::<NeighborView>::empty() + test_like(neighbor_views(callers@)) =~= test_like(
            neighbor_views(callers@),
        ));
    }
    NeighborGroups { callers, callees, imports, imported_by, dependents, depends_on, tests }
}

/// No edge is dropped by the grouping: every neighbour lands in exactly
/// one of the calls, imports and other-kinds lists, so their lengths add
/// up to the number of edges.
pub proof fn lemma_groups_cover_every_edge(s: Seq<NeighborView>)
    ensures
        in_group(s, 0).len() + in_group(s, 1).len() + in_group(s, 2).len() == s.len(),
    decreases s.len(),
{
    if s.len() > 0 {
        lemma_groups_cover_every_edge(s.drop_last());
    }
}

} // verus!
