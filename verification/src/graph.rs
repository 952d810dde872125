//! Graph composition for the visualisation layer.
//!
//! Focal mode is a bounded breadth-first expansion around one symbol:
//! each hop takes the outbound and inbound edges of every frontier node,
//! drops the kinds that are not allowed, records each `(from, to, kind)`
//! edge once, and enlists new nodes while fewer than `max_nodes` are
//! known. Bounded mode lists symbols page by page up to `max_nodes` and
//! keeps only the edges between listed symbols. The edges of a node are
//! read from the index by the caller and handed in.
use vstd::prelude::*;
use crate::text::str_chars;

verus! {

/// Default hop count of a focal expansion.
pub const FETCH_GRAPH_DEFAULT_DEPTH: u8 = 2;
/// Largest hop count of a focal expansion.
pub const FETCH_GRAPH_MAX_DEPTH: u8 = 5;
/// Default cap on the number of symbols returned.
pub const FETCH_GRAPH_DEFAULT_MAX_NODES: u32 = 500;
/// Largest accepted `max_nodes`.
pub const FETCH_GRAPH_MAX_NODES_CAP: u32 = 5000;
/// Page size of the bounded symbol listing.
pub const BOUNDED_LIST_PAGE: usize = 100;

/// Project metadata shipped with a graph response.
#[derive(Debug, Clone, PartialEq, Eq)]
pub struct GraphProject {
    pub project_id: u32,
    pub label: String,
    /// Ecosystem tag (`rust`, `node`, …).
    pub kind: String,
    /// POSIX path relative to the workspace root.
    pub rel_path: String,
}

/// An edge of the response, with its direction relative to the node it
/// was discovered from.
#[derive(Debug, Clone, PartialEq, Eq)]
pub struct GraphEdge {
    pub from: String,
    pub to: String,
    /// Edge kind as stored (`CALLS`, `IMPLEMENTS`, …).
    pub kind: String,
    pub outbound: bool,
}

/// An outgoing edge of a node as read from the index: its target FQDN
/// when resolved, and its kind.
#[derive(Debug, Clone)]
pub struct OutEdge {
    pub target: Option<String>,
    pub kind: String,
}

/// An incoming edge of a node: its (always resolved) source and kind.
#[derive(Debug, Clone)]
pub struct InEdge {
    pub from: String,
    pub kind: String,
}

pub type EdgeView = (Seq<char>, Seq<char>, Seq<char>, bool);

pub open spec fn edge_view(e: GraphEdge) -> EdgeView {
    (e.from@, e.to@, e.kind@, e.outbound)
}

pub open spec fn edge_views(s: Seq<GraphEdge>) -> Seq<EdgeView> {
    s.map_values(|e: GraphEdge| edge_view(e))
}

pub open spec fn text_views(s: Seq<String>) -> Seq<Seq<char>> {
    s.map_values(|x: String| x@)
}

pub open spec fn same_key(a: EdgeView, b: EdgeView) -> bool {
    a.0 == b.0 && a.1 == b.1 && a.2 == b.2
}

/// No two edges share `(from, to, kind)`.
pub open spec fn unique_keys(s: Seq<EdgeView>) -> bool {
    forall|i: int, j: int| 0 <= i < j < s.len() ==> !same_key(#[trigger] s[i], #[trigger] s[j])
}

pub open spec fn distinct(s: Seq<Seq<char>>) -> bool {
    forall|i: int, j: int| 0 <= i < j < s.len() ==> #[trigger] s[i] != #[trigger] s[j]
}

pub open spec fn has_key(s: Seq<EdgeView>, e: EdgeView) -> bool {
    exists|i: int| 0 <= i < s.len() && same_key(#[trigger] s[i], e)
}

/// `e` is appended unless an edge with its key is already recorded.
pub open spec fn add_edge(s: Seq<EdgeView>, e: EdgeView) -> Seq<EdgeView> {
    if has_key(s, e) {
        s
    } else {
        s.push(e)
    }
}

/// `None` lets every kind through.
pub open spec fn kind_allowed(kinds: Option<Seq<Seq<char>>>, k: Seq<char>) -> bool {
    match kinds {
        None => true,
        Some(ks) => ks.contains(k),
    }
}

/// Walk state: nodes known so far, nodes enlisted during this hop, edges.
pub type WalkView = (Seq<Seq<char>>, Seq<Seq<char>>, Seq<EdgeView>);

/// A node is enlisted while fewer than `max` are known.
pub open spec fn enlist(w: WalkView, t: Seq<char>, max: nat) -> WalkView {
    if w.0.len() < max && !w.0.contains(t) {
        (w.0.push(t), w.1.push(t), w.2)
    } else {
        w
    }
}

pub open spec fn out_step(w: WalkView, node: Seq<char>, e: (Option<Seq<char>>, Seq<char>), kinds: Option<Seq<Seq<char>>>, max: nat) -> WalkView {
    if !kind_allowed(kinds, e.1) {
        w
    } else {
        match e.0 {
            None => w,
            Some(t) => enlist((w.0, w.1, add_edge(w.2, (node, t, e.1, true))), t, max),
        }
    }
}

pub open spec fn in_step(w: WalkView, node: Seq<char>, e: (Seq<char>, Seq<char>), kinds: Option<Seq<Seq<char>>>, max: nat) -> WalkView {
    if !kind_allowed(kinds, e.1) {
        w
    } else {
        enlist((w.0, w.1, add_edge(w.2, (e.0, node, e.1, false))), e.0, max)
    }
}

pub open spec fn out_views(s: Seq<OutEdge>) -> Seq<(Option<Seq<char>>, Seq<char>)> {
    s.map_values(|e: OutEdge| (match e.target { Some(t) => Some(t@), None => None }, e.kind@))
}

pub open spec fn in_views(s: Seq<InEdge>) -> Seq<(Seq<char>, Seq<char>)> {
    s.map_values(|e: InEdge| (e.from@, e.kind@))
}

pub open spec fn out_fold(w: WalkView, node: Seq<char>, es: Seq<(Option<Seq<char>>, Seq<char>)>, kinds: Option<Seq<Seq<char>>>, max: nat) -> WalkView
    decreases es.len(),
{
    if es.len() == 0 {
        w
    } else {
        out_step(out_fold(w, node, es.drop_last(), kinds, max), node, es.last(), kinds, max)
    }
}

pub open spec fn in_fold(w: WalkView, node: Seq<char>, es: Seq<(Seq<char>, Seq<char>)>, kinds: Option<Seq<Seq<char>>>, max: nat) -> WalkView
    decreases es.len(),
{
    if es.len() == 0 {
        w
    } else {
        in_step(in_fold(w, node, es.drop_last(), kinds, max), node, es.last(), kinds, max)
    }
}

/// One node's expansion: its outbound edges, then its inbound edges.
pub open spec fn expand_node(w: WalkView, node: Seq<char>, outs: Seq<(Option<Seq<char>>, Seq<char>)>, ins: Seq<(Seq<char>, Seq<char>)>, kinds: Option<Seq<Seq<char>>>, max: nat) -> WalkView {
    in_fold(out_fold(w, node, outs, kinds, max), node, ins, kinds, max)
}

/// What every walk state satisfies: known nodes are distinct and never
/// exceed the cap (the focal node is always known), nodes enlisted this
/// hop are known, and each edge key occurs once.
pub open spec fn walk_ok(w: WalkView, max: nat) -> bool {
    &&& distinct(w.0)
    &&& w.0.len() <= if max > 1 { max } else { 1 }
    &&& forall|i: int| 0 <= i < w.1.len() ==> w.0.contains(#[trigger] w.1[i])
    &&& unique_keys(w.2)
}

proof fn lemma_add_edge_ok(s: Seq<EdgeView>, e: EdgeView)
    requires
        unique_keys(s),
    ensures
        unique_keys(add_edge(s, e)),
        has_key(add_edge(s, e), e),
{
    if !has_key(s, e) {
        let t = s.push(e);
        assert forall|i: int, j: int| 0 <= i < j < t.len() implies !same_key(#[trigger] t[i], #[trigger] t[j]) by {
            if j == s.len() {
                assert(t[i] == s[i]);
                if same_key(s[i], e) {
                    assert(has_key(s, e));
                }
            } else {
                assert(t[i] == s[i]);
                assert(t[j] == s[j]);
            }
        }
        assert(same_key(t[s.len() as int], e));
    }
}

proof fn lemma_enlist_ok(w: WalkView, t: Seq<char>, max: nat)
    requires
        walk_ok(w, max),
    ensures
        walk_ok(enlist(w, t, max), max),
{
    if w.0.len() < max && !w.0.contains(t) {
        let v = w.0.push(t);
        let n = w.1.push(t);
        assert forall|i: int, j: int| 0 <= i < j < v.len() implies #[trigger] v[i] != #[trigger] v[j] by {
            if j == w.0.len() {
                assert(v[i] == w.0[i]);
                if w.0[i] == t {
                    assert(w.0.contains(t));
                }
            } else {
                assert(v[i] == w.0[i]);
                assert(v[j] == w.0[j]);
            }
        }
        assert forall|i: int| 0 <= i < n.len() implies v.contains(#[trigger] n[i]) by {
            if i == w.1.len() {
                assert(v[w.0.len() as int] == t);
            } else {
                assert(n[i] == w.1[i]);
                assert(w.0.contains(w.1[i]));
                let k = choose|k: int| 0 <= k < w.0.len() && w.0[k] == w.1[i];
                assert(v[k] == w.0[k]);
            }
        }
    }
}

proof fn lemma_out_fold_ok(w: WalkView, node: Seq<char>, es: Seq<(Option<Seq<char>>, Seq<char>)>, kinds: Option<Seq<Seq<char>>>, max: nat)
    requires
        walk_ok(w, max),
    ensures
        walk_ok(out_fold(w, node, es, kinds, max), max),
    decreases es.len(),
{
    if es.len() > 0 {
        lemma_out_fold_ok(w, node, es.drop_last(), kinds, max);
        let p = out_fold(w, node, es.drop_last(), kinds, max);
        let e = es.last();
        if kind_allowed(kinds, e.1) && e.0 is Some {
            let t = e.0->0;
            lemma_add_edge_ok(p.2, (node, t, e.1, true));
            lemma_enlist_ok((p.0, p.1, add_edge(p.2, (node, t, e.1, true))), t, max);
        }
    }
}

proof fn lemma_in_fold_ok(w: WalkView, node: Seq<char>, es: Seq<(Seq<char>, Seq<char>)>, kinds: Option<Seq<Seq<char>>>, max: nat)
    requires
        walk_ok(w, max),
    ensures
        walk_ok(in_fold(w, node, es, kinds, max), max),
    decreases es.len(),
{
    if es.len() > 0 {
        lemma_in_fold_ok(w, node, es.drop_last(), kinds, max);
        let p = in_fold(w, node, es.drop_last(), kinds, max);
        let e = es.last();
        if kind_allowed(kinds, e.1) {
            lemma_add_edge_ok(p.2, (e.0, node, e.1, false));
            lemma_enlist_ok((p.0, p.1, add_edge(p.2, (e.0, node, e.1, false))), e.0, max);
        }
    }
}

/// Expanding a node keeps the walk well formed: known nodes stay
/// distinct and within the cap, and no edge is recorded twice.
pub proof fn lemma_expand_node_ok(w: WalkView, node: Seq<char>, outs: Seq<(Option<Seq<char>>, Seq<char>)>, ins: Seq<(Seq<char>, Seq<char>)>, kinds: Option<Seq<Seq<char>>>, max: nat)
    requires
        walk_ok(w, max),
    ensures
        walk_ok(expand_node(w, node, outs, ins, kinds, max), max),
{
    lemma_out_fold_ok(w, node, outs, kinds, max);
    lemma_in_fold_ok(out_fold(w, node, outs, kinds, max), node, ins, kinds, max);
}

/// `b` extends `a`: every known node stays known (and their number never
/// shrinks), every enlisted node stays enlisted, a node that became known
/// was enlisted, and every recorded edge key stays recorded.
pub open spec fn extends(a: WalkView, b: WalkView) -> bool {
    &&& a.0.len() <= b.0.len()
    &&& forall|x: Seq<char>| a.0.contains(x) ==> #[trigger] b.0.contains(x)
    &&& forall|x: Seq<char>| a.1.contains(x) ==> #[trigger] b.1.contains(x)
    &&& forall|x: Seq<char>| #[trigger] b.0.contains(x) && !a.0.contains(x) ==> b.1.contains(x)
    &&& forall|e: EdgeView| has_key(a.2, e) ==> #[trigger] has_key(b.2, e)
}

proof fn lemma_extends_trans(a: WalkView, b: WalkView, c: WalkView)
    requires
        extends(a, b),
        extends(b, c),
    ensures
        extends(a, c),
{
    assert forall|x: Seq<char>| #[trigger] c.0.contains(x) && !a.0.contains(x) implies c.1.contains(x) by {
        if b.0.contains(x) {
            assert(b.1.contains(x));
        }
    }
}

proof fn lemma_extends_refl(a: WalkView)
    ensures
        extends(a, a),
{
}

proof fn lemma_add_edge_keeps(s: Seq<EdgeView>, e: EdgeView)
    ensures
        forall|x: EdgeView| has_key(s, x) ==> #[trigger] has_key(add_edge(s, e), x),
        has_key(add_edge(s, e), e),
{
    if !has_key(s, e) {
        let t = s.push(e);
        assert forall|x: EdgeView| has_key(s, x) implies #[trigger] has_key(t, x) by {
            let i = choose|i: int| 0 <= i < s.len() && same_key(#[trigger] s[i], x);
            assert(t[i] == s[i]);
        }
        assert(same_key(t[s.len() as int], e));
    }
}

proof fn lemma_enlist_extends(w: WalkView, t: Seq<char>, max: nat)
    ensures
        extends(w, enlist(w, t, max)),
        enlist(w, t, max).0.contains(t) || w.0.len() >= max,
{
    if w.0.len() < max && !w.0.contains(t) {
        let r = enlist(w, t, max);
        assert(r.0[w.0.len() as int] == t);
        assert(r.1[w.1.len() as int] == t);
        assert forall|x: Seq<char>| w.0.contains(x) implies #[trigger] r.0.contains(x) by {
            let i = choose|i: int| 0 <= i < w.0.len() && w.0[i] == x;
            assert(r.0[i] == x);
        }
        assert forall|x: Seq<char>| w.1.contains(x) implies #[trigger] r.1.contains(x) by {
            let i = choose|i: int| 0 <= i < w.1.len() && w.1[i] == x;
            assert(r.1[i] == x);
        }
        assert forall|x: Seq<char>| #[trigger] r.0.contains(x) && !w.0.contains(x) implies r.1.contains(x) by {
            let i = choose|i: int| 0 <= i < r.0.len() && r.0[i] == x;
            if i < w.0.len() {
                assert(w.0[i] == x);
            }
        }
    }
}

proof fn lemma_in_step_extends(p: WalkView, node: Seq<char>, e: (Seq<char>, Seq<char>), kinds: Option<Seq<Seq<char>>>, max: nat)
    ensures
        extends(p, in_step(p, node, e, kinds, max)),
        kind_allowed(kinds, e.1) ==> (in_step(p, node, e, kinds, max).0.contains(e.0) || p.0.len() >= max)
            && has_key(in_step(p, node, e, kinds, max).2, (e.0, node, e.1, false)),
{
    if kind_allowed(kinds, e.1) {
        let q = (p.0, p.1, add_edge(p.2, (e.0, node, e.1, false)));
        lemma_add_edge_keeps(p.2, (e.0, node, e.1, false));
        lemma_enlist_extends(q, e.0, max);
        lemma_extends_trans(p, q, enlist(q, e.0, max));
    }
}

proof fn lemma_out_step_extends(p: WalkView, node: Seq<char>, e: (Option<Seq<char>>, Seq<char>), kinds: Option<Seq<Seq<char>>>, max: nat)
    ensures
        extends(p, out_step(p, node, e, kinds, max)),
        kind_allowed(kinds, e.1) ==> (e.0 matches Some(t) ==> (out_step(p, node, e, kinds, max).0.contains(t) || p.0.len() >= max)
            && has_key(out_step(p, node, e, kinds, max).2, (node, t, e.1, true))),
{
    if kind_allowed(kinds, e.1) && e.0 is Some {
        let t = e.0->0;
        let q = (p.0, p.1, add_edge(p.2, (node, t, e.1, true)));
        lemma_add_edge_keeps(p.2, (node, t, e.1, true));
        lemma_enlist_extends(q, t, max);
        lemma_extends_trans(p, q, enlist(q, t, max));
    }
}

proof fn lemma_in_fold_enlists(w: WalkView, node: Seq<char>, es: Seq<(Seq<char>, Seq<char>)>, kinds: Option<Seq<Seq<char>>>, max: nat)
    ensures
        extends(w, in_fold(w, node, es, kinds, max)),
        forall|i: int| 0 <= i < es.len() && kind_allowed(kinds, (#[trigger] es[i]).1) ==>
            (in_fold(w, node, es, kinds, max).0.contains(es[i].0) || in_fold(w, node, es, kinds, max).0.len() >= max)
            && has_key(in_fold(w, node, es, kinds, max).2, (es[i].0, node, es[i].1, false)),
    decreases es.len(),
{
    if es.len() == 0 {
        lemma_extends_refl(w);
    } else {
        let init = es.drop_last();
        lemma_in_fold_enlists(w, node, init, kinds, max);
        let p = in_fold(w, node, init, kinds, max);
        let r = in_fold(w, node, es, kinds, max);
        lemma_in_step_extends(p, node, es.last(), kinds, max);
        lemma_extends_trans(w, p, r);
        assert forall|i: int| 0 <= i < es.len() && kind_allowed(kinds, (#[trigger] es[i]).1) implies
            (r.0.contains(es[i].0) || r.0.len() >= max) && has_key(r.2, (es[i].0, node, es[i].1, false)) by {
            if i < init.len() {
                assert(init[i] == es[i]);
            } else {
                assert(es[i] == es.last());
            }
        }
    }
}

proof fn lemma_out_fold_enlists(w: WalkView, node: Seq<char>, es: Seq<(Option<Seq<char>>, Seq<char>)>, kinds: Option<Seq<Seq<char>>>, max: nat)
    ensures
        extends(w, out_fold(w, node, es, kinds, max)),
        forall|i: int| 0 <= i < es.len() && kind_allowed(kinds, (#[trigger] es[i]).1) ==> (es[i].0 matches Some(t) ==>
            (out_fold(w, node, es, kinds, max).0.contains(t) || out_fold(w, node, es, kinds, max).0.len() >= max)
            && has_key(out_fold(w, node, es, kinds, max).2, (node, t, es[i].1, true))),
    decreases es.len(),
{
    if es.len() == 0 {
        lemma_extends_refl(w);
    } else {
        let init = es.drop_last();
        lemma_out_fold_enlists(w, node, init, kinds, max);
        let p = out_fold(w, node, init, kinds, max);
        let r = out_fold(w, node, es, kinds, max);
        lemma_out_step_extends(p, node, es.last(), kinds, max);
        lemma_extends_trans(w, p, r);
        assert forall|i: int| 0 <= i < es.len() && kind_allowed(kinds, (#[trigger] es[i]).1) implies (es[i].0 matches Some(t) ==>
            (r.0.contains(t) || r.0.len() >= max) && has_key(r.2, (node, t, es[i].1, true))) by {
            if i < init.len() {
                assert(init[i] == es[i]);
            } else {
                assert(es[i] == es.last());
            }
        }
    }
}

/// Expanding a node reaches both ways: every outbound edge that passes
/// the kind filter and has a resolved target, and every inbound edge that
/// passes it, is recorded (outbound / inbound), and its other end is a
/// known node unless the node cap was reached. A node that becomes known
/// is enlisted for the next hop; nothing known, enlisted or recorded
/// before is lost.
pub proof fn lemma_expand_node_reaches_neighbours(
    w: WalkView,
    node: Seq<char>,
    outs: Seq<(Option<Seq<char>>, Seq<char>)>,
    ins: Seq<(Seq<char>, Seq<char>)>,
    kinds: Option<Seq<Seq<char>>>,
    max: nat,
)
    ensures
        extends(w, expand_node(w, node, outs, ins, kinds, max)),
        forall|i: int| 0 <= i < outs.len() && kind_allowed(kinds, (#[trigger] outs[i]).1) ==> (outs[i].0 matches Some(t) ==>
            (expand_node(w, node, outs, ins, kinds, max).0.contains(t) || expand_node(w, node, outs, ins, kinds, max).0.len() >= max)
            && has_key(expand_node(w, node, outs, ins, kinds, max).2, (node, t, outs[i].1, true))),
        forall|i: int| 0 <= i < ins.len() && kind_allowed(kinds, (#[trigger] ins[i]).1) ==>
            (expand_node(w, node, outs, ins, kinds, max).0.contains(ins[i].0) || expand_node(w, node, outs, ins, kinds, max).0.len() >= max)
            && has_key(expand_node(w, node, outs, ins, kinds, max).2, (ins[i].0, node, ins[i].1, false)),
{
    let o = out_fold(w, node, outs, kinds, max);
    let r = expand_node(w, node, outs, ins, kinds, max);
    lemma_out_fold_enlists(w, node, outs, kinds, max);
    lemma_in_fold_enlists(o, node, ins, kinds, max);
    lemma_extends_trans(w, o, r);
    assert forall|i: int| 0 <= i < outs.len() && kind_allowed(kinds, (#[trigger] outs[i]).1) implies (outs[i].0 matches Some(t) ==>
        (r.0.contains(t) || r.0.len() >= max) && has_key(r.2, (node, t, outs[i].1, true))) by {
        if outs[i].0 is Some {
            let t = outs[i].0->0;
            assert(o.0.contains(t) || o.0.len() >= max);
            if o.0.contains(t) {
                assert(r.0.contains(t));
            }
            assert(has_key(o.2, (node, t, outs[i].1, true)));
            assert(has_key(r.2, (node, t, outs[i].1, true)));
        }
    }
}

fn texts_contain(s: &Vec<String>, t: &String) -> (b: bool)
    ensures
        b == text_views(s@).contains(t@),
{
    let mut i: usize = 0;
    while i < s.len()
        invariant
            i <= s.len(),
            forall|j: int| 0 <= j < i ==> (#[trigger] text_views(s@)[j]) != t@,
        decreases s.len() - i,
    {
        if crate::text::string_eq(&s[i], t) {
            assert(text_views(s@)[i as int] == t@);
            return true;
        }
        i += 1;
    }
    false
}

fn edges_have_key(s: &Vec<GraphEdge>, from: &String, to: &String, kind: &String) -> (b: bool)
    ensures
        b == has_key(edge_views(s@), (from@, to@, kind@, true)),
{
    let ghost ev = edge_views(s@);
    let mut i: usize = 0;
    while i < s.len()
        invariant
            i <= s.len(),
            ev == edge_views(s@),
            forall|j: int| 0 <= j < i ==> !same_key(#[trigger] ev[j], (from@, to@, kind@, true)),
        decreases s.len() - i,
    {
        let e = &s[i];
        assert(ev[i as int] == edge_view(*e));
        if crate::text::string_eq(&e.from, from) && crate::text::string_eq(&e.to, to)
            && crate::text::string_eq(&e.kind, kind) {
            assert(same_key(ev[i as int], (from@, to@, kind@, true)));
            return true;
        }
        i += 1;
    }
    false
}

/// Records an edge unless its `(from, to, kind)` is already recorded.
pub fn push_edge(edges: &mut Vec<GraphEdge>, from: String, to: String, kind: String, outbound: bool)
    ensures
        edge_views(final(edges)@) == add_edge(edge_views(old(edges)@), (from@, to@, kind@, outbound)),
{
    let present = edges_have_key(edges, &from, &to, &kind);
    assert(has_key(edge_views(edges@), (from@, to@, kind@, true)) == has_key(
        edge_views(edges@),
        (from@, to@, kind@, outbound),
    ));
    if !present {
        let ghost before = edge_views(edges@);
        let ghost e = (from@, to@, kind@, outbound);
        edges.push(GraphEdge { from, to, kind, outbound });
        assert(edge_views(edges@) =~= before.push(e));
    }
}

/// Whether the kind passes the allow-list (`None` lets every kind through).
pub fn kind_passes(kinds: &Option<Vec<String>>, kind: &String) -> (b: bool)
    ensures
        b == kind_allowed(opt_texts(*kinds), kind@),
{
    match kinds {
        None => true,
        Some(ks) => texts_contain(ks, kind),
    }
}

pub open spec fn opt_texts(o: Option<Vec<String>>) -> Option<Seq<Seq<char>>> {
    match o {
        None => None,
        Some(v) => Some(text_views(v@)),
    }
}

/// Focal-mode expansion state.
pub struct FocalWalk {
    focal: String,
    visited: Vec<String>,
    frontier: Vec<String>,
    next_frontier: Vec<String>,
    edges: Vec<GraphEdge>,
    hops_left: u8,
    max_nodes: usize,
    kinds: Option<Vec<String>>,
}

impl FocalWalk {
    pub closed spec fn walk(&self) -> WalkView {
        (text_views(self.visited@), text_views(self.next_frontier@), edge_views(self.edges@))
    }

    pub closed spec fn focal_view(&self) -> Seq<char> {
        self.focal@
    }

    pub closed spec fn frontier_view(&self) -> Seq<Seq<char>> {
        text_views(self.frontier@)
    }

    pub closed spec fn hops_left(&self) -> nat {
        self.hops_left as nat
    }

    pub closed spec fn max_nodes(&self) -> nat {
        self.max_nodes as nat
    }

    pub closed spec fn kinds(&self) -> Option<Seq<Seq<char>>> {
        opt_texts(self.kinds)
    }

    pub open spec fn well_formed(&self) -> bool {
        walk_ok(self.walk(), self.max_nodes())
    }

    /// Starts an expansion around `focal` (which the caller found in the
    /// index): it is the only known node and the first frontier.
    pub fn start(focal: String, depth: u8, kinds: Option<Vec<String>>, max_nodes: u32) -> (w: Self)
        ensures
            w.well_formed(),
            w.walk().0 == seq![focal@],
            w.walk().1 == Seq::<Seq<char>>::empty(),
            w.walk().2 == Seq::<EdgeView>::empty(),
            w.frontier_view() == seq![focal@],
            w.hops_left() == depth,
            w.max_nodes() == max_nodes,
            w.kinds() == opt_texts(kinds),
            w.focal_view() == focal@,
    {
        let mut visited: Vec<String> = Vec::new();
        visited.push(focal.clone());
        let mut frontier: Vec<String> = Vec::new();
        frontier.push(focal.clone());
        let w = FocalWalk {
            focal,
            visited,
            frontier,
            next_frontier: Vec::new(),
            edges: Vec::new(),
            hops_left: depth,
            max_nodes: max_nodes as usize,
            kinds,
        };
        assert(w.walk().0 =~= seq![w.focal@]);
        assert(w.walk().1 =~= Seq::<Seq<char>>::empty());
        assert(w.walk().2 =~= Seq::<EdgeView>::empty());
        assert(w.frontier_view() =~= seq![w.focal@]);
        w
    }

    /// Begins the next hop: `None` when the depth is used up, the node
    /// cap is reached or the frontier is empty; otherwise the nodes to
    /// expand during this hop.
    pub fn begin_hop(&mut self) -> (r: Option<Vec<String>>)
        requires
            old(self).well_formed(),
        ensures
            final(self).well_formed(),
            final(self).max_nodes() == old(self).max_nodes(),
            final(self).kinds() == old(self).kinds(),
            final(self).walk().0 == old(self).walk().0,
            final(self).walk().2 == old(self).walk().2,
            (old(self).hops_left() == 0 || old(self).walk().0.len() >= old(self).max_nodes()
                || old(self).frontier_view().len() == 0) <==> r is None,
            r is None ==> final(self).walk() == old(self).walk() && final(self).hops_left() == 0,
            r matches Some(nodes) ==> text_views(nodes@) == old(self).frontier_view()
                && final(self).hops_left() == old(self).hops_left() - 1
                && final(self).walk().1 == Seq::<Seq<char>>::empty(),
    {
        if self.hops_left == 0 || self.visited.len() >= self.max_nodes || self.frontier.len() == 0 {
            self.hops_left = 0;
            return None;
        }
        self.hops_left = self.hops_left - 1;
        let mut nodes: Vec<String> = Vec::new();
        std::mem::swap(&mut nodes, &mut self.frontier);
        self.next_frontier = Vec::new();
        assert(self.walk().1 =~= Seq::<Seq<char>>::empty());
        Some(nodes)
    }

    /// Expands one frontier node with the edges read for it.
    pub fn expand(&mut self, node: &String, outbound: &[OutEdge], inbound: &[InEdge])
        requires
            old(self).well_formed(),
        ensures
            final(self).well_formed(),
            final(self).walk() == expand_node(
                old(self).walk(),
                node@,
                out_views(outbound@),
                in_views(inbound@),
                old(self).kinds(),
                old(self).max_nodes(),
            ),
            final(self).max_nodes() == old(self).max_nodes(),
            final(self).kinds() == old(self).kinds(),
            final(self).hops_left() == old(self).hops_left(),
            final(self).frontier_view() == old(self).frontier_view(),
    {
        let ghost w0 = self.walk();
        let ghost outs = out_views(outbound@);
        let ghost ins = in_views(inbound@);
        let ghost max = self.max_nodes();
        let ghost kinds = self.kinds();
        let mut i: usize = 0;
        assert(outs.take(0) =~= Seq::<(Option<Seq<char>>, Seq<char>)>::empty());
        while i < outbound.len()
            invariant
                i <= outbound.len(),
                outs == out_views(outbound@),
                max == self.max_nodes(),
                kinds == self.kinds(),
                self.walk() == out_fold(w0, node@, outs.take(i as int), kinds, max),
                self.frontier_view() == old(self).frontier_view(),
                self.hops_left() == old(self).hops_left(),
            decreases outbound.len() - i,
        {
            let e = &outbound[i];
            assert(outs.take(i + 1).drop_last() =~= outs.take(i as int));
            assert(outs.take(i + 1).last() == outs[i as int]);
            self.out_edge(node, e);
            i += 1;
        }
        assert(outs.take(outbound.len() as int) =~= outs);
        let ghost w1 = self.walk();
        let mut k: usize = 0;
        assert(ins.take(0) =~= Seq::<(Seq<char>, Seq<char>)>::empty());
        while k < inbound.len()
            invariant
                k <= inbound.len(),
                ins == in_views(inbound@),
                max == self.max_nodes(),
                kinds == self.kinds(),
                self.walk() == in_fold(w1, node@, ins.take(k as int), kinds, max),
                self.frontier_view() == old(self).frontier_view(),
                self.hops_left() == old(self).hops_left(),
            decreases inbound.len() - k,
        {
            let e = &inbound[k];
            assert(ins.take(k + 1).drop_last() =~= ins.take(k as int));
            assert(ins.take(k + 1).last() == ins[k as int]);
            self.in_edge(node, e);
            k += 1;
        }
        assert(ins.take(inbound.len() as int) =~= ins);
        proof {
            lemma_expand_node_ok(w0, node@, outs, ins, kinds, max);
        }
    }

    fn enlist_node(&mut self, t: &String)
        ensures
            final(self).walk() == enlist(old(self).walk(), t@, old(self).max_nodes()),
            final(self).max_nodes() == old(self).max_nodes(),
            final(self).kinds() == old(self).kinds(),
            final(self).frontier_view() == old(self).frontier_view(),
            final(self).hops_left() == old(self).hops_left(),
    {
        if self.visited.len() < self.max_nodes && !texts_contain(&self.visited, t) {
            let ghost v = text_views(self.visited@);
            let ghost n = text_views(self.next_frontier@);
            self.visited.push(t.clone());
            self.next_frontier.push(t.clone());
            assert(text_views(self.visited@) =~= v.push(t@));
            assert(text_views(self.next_frontier@) =~= n.push(t@));
        }
    }

    fn out_edge(&mut self, node: &String, e: &OutEdge)
        ensures
            final(self).walk() == out_step(
                old(self).walk(),
                node@,
                (match e.target { Some(t) => Some(t@), None => None }, e.kind@),
                old(self).kinds(),
                old(self).max_nodes(),
            ),
            final(self).max_nodes() == old(self).max_nodes(),
            final(self).kinds() == old(self).kinds(),
            final(self).frontier_view() == old(self).frontier_view(),
            final(self).hops_left() == old(self).hops_left(),
    {
        if !kind_passes(&self.kinds, &e.kind) {
            return;
        }
        match &e.target {
            None => {},
            Some(t) => {
                push_edge(&mut self.edges, node.clone(), t.clone(), e.kind.clone(), true);
                self.enlist_node(t);
            },
        }
    }

    fn in_edge(&mut self, node: &String, e: &InEdge)
        ensures
            final(self).walk() == in_step(
                old(self).walk(),
                node@,
                (e.from@, e.kind@),
                old(self).kinds(),
                old(self).max_nodes(),
            ),
            final(self).max_nodes() == old(self).max_nodes(),
            final(self).kinds() == old(self).kinds(),
            final(self).frontier_view() == old(self).frontier_view(),
            final(self).hops_left() == old(self).hops_left(),
    {
        if !kind_passes(&self.kinds, &e.kind) {
            return;
        }
        push_edge(&mut self.edges, e.from.clone(), node.clone(), e.kind.clone(), false);
        self.enlist_node(&e.from);
    }

    /// Ends a hop: the nodes enlisted during it become the frontier.
    pub fn end_hop(&mut self)
        requires
            old(self).well_formed(),
        ensures
            final(self).well_formed(),
            final(self).frontier_view() == old(self).walk().1,
            final(self).walk().0 == old(self).walk().0,
            final(self).walk().1 == Seq::<Seq<char>>::empty(),
            final(self).walk().2 == old(self).walk().2,
            final(self).hops_left() == old(self).hops_left(),
            final(self).max_nodes() == old(self).max_nodes(),
            final(self).kinds() == old(self).kinds(),
    {
        let mut next: Vec<String> = Vec::new();
        std::mem::swap(&mut next, &mut self.next_frontier);
        self.frontier = next;
        assert(self.walk().1 =~= Seq::<Seq<char>>::empty());
    }

    /// The known nodes and the recorded edges.
    pub fn finish(self) -> (r: (Vec<String>, Vec<GraphEdge>))
        ensures
            text_views(r.0@) == self.walk().0,
            edge_views(r.1@) == self.walk().2,
    {
        (self.visited, self.edges)
    }
}

// ---------------------------------------------------------------------
// Bounded mode
// ---------------------------------------------------------------------

/// Paged listing of the first `max_nodes` symbols (in FQDN order).
pub struct BoundedListing {
    out: Vec<String>,
    cursor: Option<String>,
    max_nodes: usize,
    done: bool,
}

impl BoundedListing {
    pub closed spec fn listed(&self) -> Seq<Seq<char>> {
        text_views(self.out@)
    }

    pub closed spec fn cap(&self) -> nat {
        self.max_nodes as nat
    }

    pub closed spec fn is_done(&self) -> bool {
        self.done
    }

    pub closed spec fn cursor_view(&self) -> Option<Seq<char>> {
        match self.cursor {
            Some(c) => Some(c@),
            None => None,
        }
    }

    pub open spec fn well_formed(&self) -> bool {
        self.listed().len() <= self.cap()
    }

    /// A listing of at most `max_nodes` symbols; nothing is read for 0.
    pub fn new(max_nodes: usize) -> (l: Self)
        ensures
            l.well_formed(),
            l.listed() == Seq::<Seq<char>>::empty(),
            l.cap() == max_nodes,
            l.cursor_view() is None,
            l.is_done() == (max_nodes == 0),
    {
        let l = BoundedListing { out: Vec::new(), cursor: None, max_nodes, done: max_nodes == 0 };
        assert(l.listed() =~= Seq::<Seq<char>>::empty());
        l
    }

    /// The size of the next page to read (after the cursor), or `None`
    /// when the listing is complete.
    pub fn next_page_size(&self) -> (r: Option<usize>)
        requires
            self.well_formed(),
        ensures
            r is None <==> (self.is_done() || self.listed().len() >= self.cap()),
            r matches Some(n) ==> n == (if self.cap() - self.listed().len() < BOUNDED_LIST_PAGE {
                self.cap() - self.listed().len()
            } else {
                BOUNDED_LIST_PAGE as int
            }) && n > 0,
    {
        if self.done || self.out.len() >= self.max_nodes {
            return None;
        }
        let remaining = self.max_nodes - self.out.len();
        if remaining < BOUNDED_LIST_PAGE {
            Some(remaining)
        } else {
            Some(BOUNDED_LIST_PAGE)
        }
    }

    /// Where the next page starts: after this FQDN.
    pub fn cursor(&self) -> (c: Option<String>)
        ensures
            match c {
                Some(s) => self.cursor_view() == Some(s@),
                None => self.cursor_view() is None,
            },
    {
        match &self.cursor {
            Some(s) => Some(s.clone()),
            None => None,
        }
    }

    /// Takes a page read with the size [`Self::next_page_size`] gave: an
    /// empty page ends the listing, a short page is the last one.
    pub fn accept_page(&mut self, page: Vec<String>, page_size: usize)
        requires
            old(self).well_formed(),
            !old(self).is_done(),
            old(self).listed().len() + page_size <= old(self).cap(),
            page@.len() <= page_size,
        ensures
            final(self).well_formed(),
            final(self).cap() == old(self).cap(),
            final(self).listed() == old(self).listed() + text_views(page@),
            final(self).is_done() == (page@.len() == 0 || page@.len() != page_size),
            page@.len() > 0 ==> final(self).cursor_view() == Some(page@.last()@),
    {
        if page.len() == 0 {
            self.done = true;
            assert(text_views(page@) =~= Seq::<Seq<char>>::empty());
            assert(self.listed() =~= old(self).listed() + text_views(page@));
            return;
        }
        self.cursor = Some(page[page.len() - 1].clone());
        assert(page@.last() == page@[page.len() - 1]);
        let full = page.len() == page_size;
        let mut i: usize = 0;
        let ghost start = self.listed();
        while i < page.len()
            invariant
                i <= page.len(),
                self.listed() == start + text_views(page@).take(i as int),
                self.max_nodes == old(self).max_nodes,
                page@.len() > 0,
                self.cursor_view() == Some(page@.last()@),
                start.len() + page_size <= self.max_nodes,
                page@.len() <= page_size,
            decreases page.len() - i,
        {
            let ghost before = self.listed();
            self.out.push(page[i].clone());
            assert(self.listed() =~= before.push(page@[i as int]@));
            i += 1;
            assert(text_views(page@).take(i as int) =~= text_views(page@).take(i - 1).push(page@[i - 1]@));
        }
        assert(text_views(page@).take(page.len() as int) =~= text_views(page@));
        self.done = !full;
    }

    /// The listed FQDNs.
    pub fn finish(self) -> (v: Vec<String>)
        ensures
            text_views(v@) == self.listed(),
    {
        self.out
    }
}

/// Keeps the outbound edges of `from` whose kind is allowed and whose
/// resolved target is among the listed nodes (no dangling edges).
pub fn bounded_edges_from(
    edges: &mut Vec<GraphEdge>,
    from: &String,
    outbound: &[OutEdge],
    kinds: &Option<Vec<String>>,
    nodes: &Vec<String>,
)
    ensures
        edge_views(final(edges)@) == bounded_fold(
            edge_views(old(edges)@),
            from@,
            out_views(outbound@),
            opt_texts(*kinds),
            text_views(nodes@),
        ),
{
    let ghost outs = out_views(outbound@);
    let ghost e0 = edge_views(edges@);
    let mut i: usize = 0;
    assert(outs.take(0) =~= Seq::<(Option<Seq<char>>, Seq<char>)>::empty());
    while i < outbound.len()
        invariant
            i <= outbound.len(),
            outs == out_views(outbound@),
            edge_views(edges@) == bounded_fold(e0, from@, outs.take(i as int), opt_texts(*kinds), text_views(nodes@)),
        decreases outbound.len() - i,
    {
        let e = &outbound[i];
        assert(outs.take(i + 1).drop_last() =~= outs.take(i as int));
        assert(outs.take(i + 1).last() == outs[i as int]);
        if kind_passes(kinds, &e.kind) {
            match &e.target {
                Some(t) => {
                    if texts_contain(nodes, t) {
                        push_edge(edges, from.clone(), t.clone(), e.kind.clone(), true);
                    }
                },
                None => {},
            }
        }
        i += 1;
    }
    assert(outs.take(outbound.len() as int) =~= outs);
}

pub open spec fn bounded_step(s: Seq<EdgeView>, from: Seq<char>, e: (Option<Seq<char>>, Seq<char>), kinds: Option<Seq<Seq<char>>>, nodes: Seq<Seq<char>>) -> Seq<EdgeView> {
    if kind_allowed(kinds, e.1) && e.0 is Some && nodes.contains(e.0->0) {
        add_edge(s, (from, e.0->0, e.1, true))
    } else {
        s
    }
}

pub open spec fn bounded_fold(s: Seq<EdgeView>, from: Seq<char>, es: Seq<(Option<Seq<char>>, Seq<char>)>, kinds: Option<Seq<Seq<char>>>, nodes: Seq<Seq<char>>) -> Seq<EdgeView>
    decreases es.len(),
{
    if es.len() == 0 {
        s
    } else {
        bounded_step(bounded_fold(s, from, es.drop_last(), kinds, nodes), from, es.last(), kinds, nodes)
    }
}

} // verus!
