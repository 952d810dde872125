//! The unresolved-edge sweep: which lookups are tried for an edge, in
//! which order, with which texts, and how the outcomes are counted.
//!
//! A `CALLS` edge with a receiver type first tries
//! `<receiver>::<method>` exactly, then (for a nominal receiver) as a
//! unique workspace suffix, then as a Rust builtin method; then the
//! traits the receiver implements; then builtin trait methods. Every
//! edge finally falls back to the module/symbol suffix chain.
use vstd::prelude::*;
use crate::text::{append_str, contains_sub, str_chars, string_from_chars};

verus! {

/// A lookup of the sweep.
#[derive(Debug, Clone, Copy, PartialEq, Eq, Structural)]
pub enum ResolveTier {
    /// `<receiver>::<method>` as an exact FQDN.
    ReceiverExact,
    /// `%::<receiver>::<method>`, workspace only, when it matches once.
    ReceiverSuffix,
    /// `<builtin>::rust::<receiver>::<method>`.
    ReceiverBuiltin,
    /// `<trait>::<method>` over the traits the receiver implements.
    TraitDispatch,
    /// A builtin trait method named `<method>`.
    BuiltinTraitMethod,
    /// The module/symbol suffix chain over linked workspaces.
    SuffixChain,
}

/// The first lookup for an edge.
pub open spec fn first_tier_of(kind: Seq<char>, has_receiver: bool) -> ResolveTier {
    if kind == "CALLS"@ && has_receiver {
        ResolveTier::ReceiverExact
    } else {
        ResolveTier::SuffixChain
    }
}

pub fn first_tier(kind: &str, has_receiver: bool) -> (t: ResolveTier)
    ensures
        t == first_tier_of(kind@, has_receiver),
{
    let k = str_chars(kind);
    if crate::text::eq_lit(&k, "CALLS") && has_receiver {
        ResolveTier::ReceiverExact
    } else {
        ResolveTier::SuffixChain
    }
}

/// The lookup after a miss; `None` after the suffix chain.
pub open spec fn next_tier_of(t: ResolveTier, receiver_is_fqdn: bool) -> Option<ResolveTier> {
    match t {
        ResolveTier::ReceiverExact => if receiver_is_fqdn {
            Some(ResolveTier::ReceiverBuiltin)
        } else {
            Some(ResolveTier::ReceiverSuffix)
        },
        ResolveTier::ReceiverSuffix => Some(ResolveTier::ReceiverBuiltin),
        ResolveTier::ReceiverBuiltin => Some(ResolveTier::TraitDispatch),
        ResolveTier::TraitDispatch => Some(ResolveTier::BuiltinTraitMethod),
        ResolveTier::BuiltinTraitMethod => Some(ResolveTier::SuffixChain),
        ResolveTier::SuffixChain => None,
    }
}

pub fn next_tier(t: ResolveTier, receiver_is_fqdn: bool) -> (n: Option<ResolveTier>)
    ensures
        n == next_tier_of(t, receiver_is_fqdn),
{
    match t {
        ResolveTier::ReceiverExact => if receiver_is_fqdn {
            Some(ResolveTier::ReceiverBuiltin)
        } else {
            Some(ResolveTier::ReceiverSuffix)
        },
        ResolveTier::ReceiverSuffix => Some(ResolveTier::ReceiverBuiltin),
        ResolveTier::ReceiverBuiltin => Some(ResolveTier::TraitDispatch),
        ResolveTier::TraitDispatch => Some(ResolveTier::BuiltinTraitMethod),
        ResolveTier::BuiltinTraitMethod => Some(ResolveTier::SuffixChain),
        ResolveTier::SuffixChain => None,
    }
}

/// Rank of a tier in the cascade.
pub open spec fn tier_rank(t: ResolveTier) -> int {
    match t {
        ResolveTier::ReceiverExact => 0,
        ResolveTier::ReceiverSuffix => 1,
        ResolveTier::ReceiverBuiltin => 2,
        ResolveTier::TraitDispatch => 3,
        ResolveTier::BuiltinTraitMethod => 4,
        ResolveTier::SuffixChain => 5,
    }
}

/// Each miss moves strictly down the cascade, which always ends with
/// the suffix chain; an FQDN receiver never gets the suffix lookup.
pub proof fn lemma_cascade_descends(t: ResolveTier, fq: bool)
    ensures
        next_tier_of(t, fq) matches Some(n) ==> tier_rank(n) > tier_rank(t),
        next_tier_of(t, fq) is None <==> t == ResolveTier::SuffixChain,
        fq ==> next_tier_of(t, fq) != Some(ResolveTier::ReceiverSuffix),
{
}

/// A receiver written as a path (`crate::Foo`) rather than a bare name.
pub fn receiver_is_fqdn(receiver_type: &str) -> (b: bool)
    ensures
        b == contains_sub(receiver_type@, "::"@),
{
    let r = str_chars(receiver_type);
    crate::text::contains_lit(&r, "::")
}

/// `<receiver>::<method>`.
pub fn receiver_candidate(receiver_type: &str, method: &str) -> (c: String)
    ensures
        c@ == receiver_type@ + "::"@ + method@,
{
    let mut out: Vec<char> = Vec::new();
    append_str(&mut out, receiver_type);
    append_str(&mut out, "::");
    append_str(&mut out, method);
    string_from_chars(out)
}

/// `%::<candidate>`: a `LIKE` pattern for FQDNs ending in the candidate.
pub fn suffix_pattern(candidate: &str) -> (p: String)
    ensures
        p@ == "%::"@ + candidate@,
{
    let mut out: Vec<char> = Vec::new();
    append_str(&mut out, "%::");
    append_str(&mut out, candidate);
    string_from_chars(out)
}

/// `<builtin>::rust::<candidate>`: the seeded Rust builtin with that path.
pub fn builtin_candidate(candidate: &str) -> (p: String)
    ensures
        p@ == "<builtin>::rust::"@ + candidate@,
{
    let mut out: Vec<char> = Vec::new();
    append_str(&mut out, "<builtin>::rust::");
    append_str(&mut out, candidate);
    string_from_chars(out)
}

/// Pattern for the implementors of a nominal receiver (`%::<receiver>`),
/// empty for an FQDN receiver (matched exactly instead).
pub fn implementor_pattern(receiver_type: &str) -> (p: String)
    ensures
        contains_sub(receiver_type@, "::"@) ==> p@ == Seq::<char>::empty(),
        !contains_sub(receiver_type@, "::"@) ==> p@ == "%::"@ + receiver_type@,
{
    if receiver_is_fqdn(receiver_type) {
        String::new()
    } else {
        suffix_pattern(receiver_type)
    }
}

/// `<builtin>::rust::%::<method>`: builtin trait methods with that name.
pub fn builtin_trait_method_pattern(method: &str) -> (p: String)
    ensures
        p@ == "<builtin>::rust::%::"@ + method@,
{
    let mut out: Vec<char> = Vec::new();
    append_str(&mut out, "<builtin>::rust::%::");
    append_str(&mut out, method);
    string_from_chars(out)
}

/// A suffix lookup resolves only when it matched exactly one row.
pub fn unique_match(rows: &[i64]) -> (r: Option<i64>)
    ensures
        rows@.len() == 1 ==> r == Some(rows@[0]),
        rows@.len() != 1 ==> r is None,
{
    if rows.len() == 1 {
        Some(rows[0])
    } else {
        None
    }
}

/// Counts of one sweep.
#[derive(Debug, Default, Clone, Copy, PartialEq, Eq)]
pub struct ResolveReport {
    pub resolved: usize,
    pub resolved_via_receiver_type: usize,
    pub resolved_via_trait_dispatch: usize,
    pub resolved_via_builtin_trait_method: usize,
    pub still_unresolved: usize,
    pub duplicate_skipped: usize,
}

impl ResolveReport {
    pub fn new() -> (r: Self)
        ensures
            r.resolved == 0,
            r.resolved_via_receiver_type == 0,
            r.resolved_via_trait_dispatch == 0,
            r.resolved_via_builtin_trait_method == 0,
            r.still_unresolved == 0,
            r.duplicate_skipped == 0,
    {
        ResolveReport {
            resolved: 0,
            resolved_via_receiver_type: 0,
            resolved_via_trait_dispatch: 0,
            resolved_via_builtin_trait_method: 0,
            still_unresolved: 0,
            duplicate_skipped: 0,
        }
    }

    /// Counts an edge resolved by `tier` while planning.
    pub fn note_hit(&mut self, tier: ResolveTier)
        requires
            old(self).resolved_via_receiver_type < usize::MAX,
            old(self).resolved_via_trait_dispatch < usize::MAX,
            old(self).resolved_via_builtin_trait_method < usize::MAX,
        ensures
            final(self).resolved_via_receiver_type == old(self).resolved_via_receiver_type + (if tier_rank(tier) <= 2 { 1int } else { 0int }),
            final(self).resolved_via_trait_dispatch == old(self).resolved_via_trait_dispatch + (if tier == ResolveTier::TraitDispatch { 1int } else { 0int }),
            final(self).resolved_via_builtin_trait_method == old(self).resolved_via_builtin_trait_method + (if tier == ResolveTier::BuiltinTraitMethod { 1int } else { 0int }),
            final(self).resolved == old(self).resolved,
            final(self).still_unresolved == old(self).still_unresolved,
            final(self).duplicate_skipped == old(self).duplicate_skipped,
    {
        match tier {
            ResolveTier::ReceiverExact | ResolveTier::ReceiverSuffix | ResolveTier::ReceiverBuiltin => {
                self.resolved_via_receiver_type = self.resolved_via_receiver_type + 1;
            },
            ResolveTier::TraitDispatch => {
                self.resolved_via_trait_dispatch = self.resolved_via_trait_dispatch + 1;
            },
            ResolveTier::BuiltinTraitMethod => {
                self.resolved_via_builtin_trait_method = self.resolved_via_builtin_trait_method + 1;
            },
            ResolveTier::SuffixChain => {},
        }
    }

    /// Counts an edge no lookup resolved.
    pub fn note_unresolved(&mut self)
        requires
            old(self).still_unresolved < usize::MAX,
        ensures
            final(self).still_unresolved == old(self).still_unresolved + 1,
            final(self).resolved == old(self).resolved,
            final(self).resolved_via_receiver_type == old(self).resolved_via_receiver_type,
            final(self).resolved_via_trait_dispatch == old(self).resolved_via_trait_dispatch,
            final(self).resolved_via_builtin_trait_method == old(self).resolved_via_builtin_trait_method,
            final(self).duplicate_skipped == old(self).duplicate_skipped,
    {
        self.still_unresolved = self.still_unresolved + 1;
    }

    /// Counts one planned rewrite by the rows its update changed: none
    /// means a resolved twin already exists (kept as a duplicate skip).
    pub fn note_update(&mut self, changed: usize)
        requires
            old(self).resolved < usize::MAX,
            old(self).duplicate_skipped < usize::MAX,
        ensures
            changed > 0 ==> final(self).resolved == old(self).resolved + 1
                && final(self).duplicate_skipped == old(self).duplicate_skipped,
            changed == 0 ==> final(self).duplicate_skipped == old(self).duplicate_skipped + 1
                && final(self).resolved == old(self).resolved,
            final(self).resolved_via_receiver_type == old(self).resolved_via_receiver_type,
            final(self).resolved_via_trait_dispatch == old(self).resolved_via_trait_dispatch,
            final(self).resolved_via_builtin_trait_method == old(self).resolved_via_builtin_trait_method,
            final(self).still_unresolved == old(self).still_unresolved,
    {
        if changed > 0 {
            self.resolved = self.resolved + 1;
        } else {
            self.duplicate_skipped = self.duplicate_skipped + 1;
        }
    }

    /// The sweep is worth logging.
    pub fn noteworthy(&self) -> (b: bool)
        ensures
            b == (self.resolved > 0 || self.duplicate_skipped > 0),
    {
        self.resolved > 0 || self.duplicate_skipped > 0
    }
}

// ---------------------------------------------------------------------
// A whole sweep
// ---------------------------------------------------------------------

/// Which counter a tier feeds: 0 receiver lookups, 1 trait dispatch,
/// 2 builtin trait methods, 3 none of those (the suffix chain).
pub open spec fn tier_class(t: ResolveTier) -> int {
    if tier_rank(t) <= 2 {
        0
    } else if t == ResolveTier::TraitDispatch {
        1
    } else if t == ResolveTier::BuiltinTraitMethod {
        2
    } else {
        3
    }
}

/// How many edges were planned through a tier of class `k`
/// (`k == 4`: how many were planned at all; `k == 5`: how many were not).
pub open spec fn count_plans(p: Seq<Option<ResolveTier>>, k: int) -> nat
    decreases p.len(),
{
    if p.len() == 0 {
        0
    } else {
        let hit = match p.last() {
            Some(t) => k == 4 || tier_class(t) == k,
            None => k == 5,
        };
        count_plans(p.drop_last(), k) + if hit { 1nat } else { 0nat }
    }
}

/// How many updates changed a row.
pub open spec fn count_changed(c: Seq<usize>) -> nat
    decreases c.len(),
{
    if c.len() == 0 {
        0
    } else {
        count_changed(c.drop_last()) + if c.last() > 0 { 1nat } else { 0nat }
    }
}

proof fn lemma_plans_split(p: Seq<Option<ResolveTier>>)
    ensures
        count_plans(p, 4) + count_plans(p, 5) == p.len(),
        count_plans(p, 0) <= p.len(),
        count_plans(p, 1) <= p.len(),
        count_plans(p, 2) <= p.len(),
    decreases p.len(),
{
    if p.len() > 0 {
        lemma_plans_split(p.drop_last());
    }
}

proof fn lemma_changed_bounded(c: Seq<usize>)
    ensures
        count_changed(c) <= c.len(),
    decreases c.len(),
{
    if c.len() > 0 {
        lemma_changed_bounded(c.drop_last());
    }
}

/// The report of a sweep over the unresolved edges: `plans` holds, per
/// edge, the tier that resolved it or `None`; `changed` holds, per planned
/// edge in order, the rows its rewrite changed. Every edge is counted
/// once: resolved, skipped as a duplicate, or still unresolved.
pub fn sweep_report(plans: &Vec<Option<ResolveTier>>, changed: &Vec<usize>) -> (r: ResolveReport)
    requires
        changed@.len() == count_plans(plans@, 4),
    ensures
        r.resolved_via_receiver_type == count_plans(plans@, 0),
        r.resolved_via_trait_dispatch == count_plans(plans@, 1),
        r.resolved_via_builtin_trait_method == count_plans(plans@, 2),
        r.still_unresolved == count_plans(plans@, 5),
        r.resolved == count_changed(changed@),
        r.duplicate_skipped == changed@.len() - count_changed(changed@),
        r.resolved + r.duplicate_skipped + r.still_unresolved == plans@.len(),
{
    let mut r = ResolveReport::new();
    let mut i: usize = 0;
    while i < plans.len()
        invariant
            i <= plans.len(),
            r.resolved_via_receiver_type == count_plans(plans@.take(i as int), 0),
            r.resolved_via_trait_dispatch == count_plans(plans@.take(i as int), 1),
            r.resolved_via_builtin_trait_method == count_plans(plans@.take(i as int), 2),
            r.still_unresolved == count_plans(plans@.take(i as int), 5),
            r.resolved == 0,
            r.duplicate_skipped == 0,
        decreases plans.len() - i,
    {
        proof {
            let t = plans@.take(i + 1);
            assert(t.drop_last() =~= plans@.take(i as int));
            assert(t.last() == plans@[i as int]);
            lemma_plans_split(plans@.take(i as int));
        }
        match plans[i] {
            Some(tier) => r.note_hit(tier),
            None => r.note_unresolved(),
        }
        i += 1;
    }
    assert(plans@.take(plans.len() as int) =~= plans@);
    let mut j: usize = 0;
    while j < changed.len()
        invariant
            j <= changed.len(),
            r.resolved_via_receiver_type == count_plans(plans@, 0),
            r.resolved_via_trait_dispatch == count_plans(plans@, 1),
            r.resolved_via_builtin_trait_method == count_plans(plans@, 2),
            r.still_unresolved == count_plans(plans@, 5),
            r.resolved == count_changed(changed@.take(j as int)),
            r.resolved + r.duplicate_skipped == j,
        decreases changed.len() - j,
    {
        proof {
            let t = changed@.take(j + 1);
            assert(t.drop_last() =~= changed@.take(j as int));
            assert(t.last() == changed@[j as int]);
        }
        r.note_update(changed[j]);
        j += 1;
    }
    assert(changed@.take(changed.len() as int) =~= changed@);
    proof {
        lemma_plans_split(plans@);
        lemma_changed_bounded(changed@);
    }
    r
}

} // verus!
