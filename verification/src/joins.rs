//! Post-extraction joins: C declarations with their definitions, and
//! FFI imports with the single export of the same `(abi, name)`.
use vstd::prelude::*;
use crate::text::{append_str, string_from_chars};

verus! {

// ---------------------------------------------------------------------
// `.h` / `.c` join
// ---------------------------------------------------------------------

/// What happens to one C function declaration.
#[derive(Debug, Clone, Copy, PartialEq, Eq, Structural)]
pub enum CJoinAction {
    /// No definition: a header-only API, kept.
    KeepOrphan,
    /// Exactly one definition: record the declaration's location on it
    /// and delete the declaration row.
    Join(i64),
    /// Several definitions: ambiguous, left alone.
    SkipAmbiguous,
}

pub open spec fn c_join_action_of(defs: Seq<i64>) -> CJoinAction {
    if defs.len() == 0 {
        CJoinAction::KeepOrphan
    } else if defs.len() == 1 {
        CJoinAction::Join(defs[0])
    } else {
        CJoinAction::SkipAmbiguous
    }
}

/// The action for a declaration whose name matches the definitions `defs`.
pub fn c_join_action(defs: &[i64]) -> (a: CJoinAction)
    ensures
        a == c_join_action_of(defs@),
{
    if defs.len() == 0 {
        CJoinAction::KeepOrphan
    } else if defs.len() == 1 {
        CJoinAction::Join(defs[0])
    } else {
        CJoinAction::SkipAmbiguous
    }
}

/// Counts of a join pass.
#[derive(Debug, Default, Clone, Copy, PartialEq, Eq)]
pub struct CJoinReport {
    pub joined: usize,
    pub orphans_kept: usize,
    pub ambiguous_skipped: usize,
}

impl CJoinReport {
    pub open spec fn total(&self) -> int {
        self.joined + self.orphans_kept + self.ambiguous_skipped
    }

    pub fn new() -> (r: Self)
        ensures
            r.joined == 0 && r.orphans_kept == 0 && r.ambiguous_skipped == 0,
    {
        CJoinReport { joined: 0, orphans_kept: 0, ambiguous_skipped: 0 }
    }

    /// Counts one declaration's action; every declaration lands in
    /// exactly one counter.
    pub fn count(&mut self, a: CJoinAction)
        requires
            old(self).total() < usize::MAX,
        ensures
            final(self).total() == old(self).total() + 1,
            final(self).joined == old(self).joined + (if a is Join { 1int } else { 0int }),
            final(self).orphans_kept == old(self).orphans_kept + (if a is KeepOrphan { 1int } else { 0int }),
            final(self).ambiguous_skipped == old(self).ambiguous_skipped + (if a is SkipAmbiguous {
                1int
            } else {
                0int
            }),
    {
        match a {
            CJoinAction::KeepOrphan => self.orphans_kept = self.orphans_kept + 1,
            CJoinAction::Join(_) => self.joined = self.joined + 1,
            CJoinAction::SkipAmbiguous => self.ambiguous_skipped = self.ambiguous_skipped + 1,
        }
    }
}

// ---------------------------------------------------------------------
// FFI binding resolution
// ---------------------------------------------------------------------

/// One side of an FFI binding: the symbol exposing or using `abi_name`
/// under `abi`.
#[derive(Debug, Clone)]
pub struct BindingSide {
    pub symbol_id: i64,
    pub fqdn: String,
    pub abi: String,
    pub abi_name: String,
}

pub type SideView = (i64, Seq<char>, Seq<char>, Seq<char>);

pub open spec fn side_views(s: Seq<BindingSide>) -> Seq<SideView> {
    s.map_values(|b: BindingSide| (b.symbol_id, b.fqdn@, b.abi@, b.abi_name@))
}

pub open spec fn same_key(a: SideView, b: SideView) -> bool {
    a.2 == b.2 && a.3 == b.3
}

/// Number of exports with the import's `(abi, name)`.
pub open spec fn exports_for(exports: Seq<SideView>, imp: SideView) -> nat
    decreases exports.len(),
{
    if exports.len() == 0 {
        0
    } else {
        exports_for(exports.drop_last(), imp) + if same_key(exports.last(), imp) {
            1nat
        } else {
            0nat
        }
    }
}

/// The last export with the import's key (the only one when there is one).
pub open spec fn export_for(exports: Seq<SideView>, imp: SideView) -> SideView
    decreases exports.len(),
{
    if exports.len() == 0 {
        (0, Seq::empty(), Seq::empty(), Seq::empty())
    } else if same_key(exports.last(), imp) {
        exports.last()
    } else {
        export_for(exports.drop_last(), imp)
    }
}

/// An `IMPORTS` edge to insert, from an importer to its exporter.
#[derive(Debug, Clone, PartialEq, Eq)]
pub struct FfiCandidate {
    pub importer_id: i64,
    pub importer_fqdn: String,
    pub exporter_id: i64,
    pub exporter_fqdn: String,
    pub abi: String,
}

pub type CandView = (i64, Seq<char>, i64, Seq<char>, Seq<char>);

pub open spec fn cand_views(s: Seq<FfiCandidate>) -> Seq<CandView> {
    s.map_values(|c: FfiCandidate| (c.importer_id, c.importer_fqdn@, c.exporter_id, c.exporter_fqdn@, c.abi@))
}

/// The candidates, in import order: each import whose key has exactly
/// one export, on another symbol, pairs with that export.
pub open spec fn ffi_candidates(exports: Seq<SideView>, imports: Seq<SideView>) -> Seq<CandView>
    decreases imports.len(),
{
    if imports.len() == 0 {
        Seq::empty()
    } else {
        let init = ffi_candidates(exports, imports.drop_last());
        let imp = imports.last();
        let e = export_for(exports, imp);
        if exports_for(exports, imp) == 1 && e.0 != imp.0 {
            init.push((imp.0, imp.1, e.0, e.1, imp.2))
        } else {
            init
        }
    }
}

/// Imports whose key no export has.
pub open spec fn ffi_orphans(exports: Seq<SideView>, imports: Seq<SideView>) -> nat
    decreases imports.len(),
{
    if imports.len() == 0 {
        0
    } else {
        ffi_orphans(exports, imports.drop_last()) + if exports_for(exports, imports.last()) == 0 {
            1nat
        } else {
            0nat
        }
    }
}

/// Imports whose key several exports share.
pub open spec fn ffi_ambiguous(exports: Seq<SideView>, imports: Seq<SideView>) -> nat
    decreases imports.len(),
{
    if imports.len() == 0 {
        0
    } else {
        ffi_ambiguous(exports, imports.drop_last()) + if exports_for(exports, imports.last()) > 1 {
            1nat
        } else {
            0nat
        }
    }
}

/// The plan of an FFI pass: the edges to insert (unless one already
/// links the pair), and the imports skipped as orphans or ambiguous.
pub struct FfiPlan {
    pub candidates: Vec<FfiCandidate>,
    pub orphans_skipped: usize,
    pub ambiguous_skipped: usize,
}

fn count_exports(exports: &[BindingSide], imp: &BindingSide) -> (r: (usize, Option<usize>))
    ensures
        r.0 == exports_for(side_views(exports@), side_views(seq![*imp])[0]),
        r.0 <= exports@.len(),
        r.0 > 0 ==> (r.1 matches Some(k) && k < exports@.len() && side_views(exports@)[k as int]
            == export_for(side_views(exports@), side_views(seq![*imp])[0])),
{
    let ghost ev = side_views(exports@);
    let ghost iv = side_views(seq![*imp])[0];
    assert(iv == (imp.symbol_id, imp.fqdn@, imp.abi@, imp.abi_name@));
    let mut n: usize = 0;
    let mut last: Option<usize> = None;
    let mut i: usize = 0;
    assert(ev.take(0) =~= Seq::<SideView>::empty());
    while i < exports.len()
        invariant
            i <= exports.len(),
            ev == side_views(exports@),
            iv == (imp.symbol_id, imp.fqdn@, imp.abi@, imp.abi_name@),
            n == exports_for(ev.take(i as int), iv),
            n <= i,
            n > 0 ==> (last matches Some(k) && k < i && ev[k as int] == export_for(ev.take(i as int), iv)),
        decreases exports.len() - i,
    {
        let e = &exports[i];
        assert(ev[i as int] == (e.symbol_id, e.fqdn@, e.abi@, e.abi_name@));
        assert(ev.take(i + 1).drop_last() =~= ev.take(i as int));
        assert(ev.take(i + 1).last() == ev[i as int]);
        if crate::text::string_eq(&e.abi, &imp.abi) && crate::text::string_eq(&e.abi_name, &imp.abi_name) {
            n = n + 1;
            last = Some(i);
        }
        i += 1;
    }
    assert(ev.take(exports.len() as int) =~= ev);
    (n, last)
}

/// Plans an FFI pass over every export and import binding.
pub fn ffi_plan(exports: &[BindingSide], imports: &[BindingSide]) -> (p: FfiPlan)
    ensures
        cand_views(p.candidates@) == ffi_candidates(side_views(exports@), side_views(imports@)),
        p.orphans_skipped == ffi_orphans(side_views(exports@), side_views(imports@)),
        p.ambiguous_skipped == ffi_ambiguous(side_views(exports@), side_views(imports@)),
{
    let ghost ev = side_views(exports@);
    let ghost iv = side_views(imports@);
    let mut candidates: Vec<FfiCandidate> = Vec::new();
    let mut orphans: usize = 0;
    let mut ambiguous: usize = 0;
    let mut j: usize = 0;
    assert(iv.take(0) =~= Seq::<SideView>::empty());
    while j < imports.len()
        invariant
            j <= imports.len(),
            ev == side_views(exports@),
            iv == side_views(imports@),
            cand_views(candidates@) == ffi_candidates(ev, iv.take(j as int)),
            orphans == ffi_orphans(ev, iv.take(j as int)),
            ambiguous == ffi_ambiguous(ev, iv.take(j as int)),
            orphans + ambiguous <= j,
        decreases imports.len() - j,
    {
        let imp = &imports[j];
        assert(iv.take(j + 1).drop_last() =~= iv.take(j as int));
        assert(iv.take(j + 1).last() == iv[j as int]);
        assert(side_views(seq![*imp])[0] == iv[j as int]);
        let (n, last) = count_exports(exports, imp);
        if n == 0 {
            orphans = orphans + 1;
        } else if n > 1 {
            ambiguous = ambiguous + 1;
        } else {
            let k = match last {
                Some(k) => k,
                None => 0,
            };
            let e = &exports[k];
            if e.symbol_id != imp.symbol_id {
                let ghost before = cand_views(candidates@);
                let c = FfiCandidate {
                    importer_id: imp.symbol_id,
                    importer_fqdn: imp.fqdn.clone(),
                    exporter_id: e.symbol_id,
                    exporter_fqdn: e.fqdn.clone(),
                    abi: imp.abi.clone(),
                };
                candidates.push(c);
                assert(cand_views(candidates@) =~= before.push(
                    (imp.symbol_id, imp.fqdn@, e.symbol_id, e.fqdn@, imp.abi@),
                ));
            }
        }
        j += 1;
    }
    assert(iv.take(imports.len() as int) =~= iv);
    FfiPlan { candidates, orphans_skipped: orphans, ambiguous_skipped: ambiguous }
}

/// Attribute of an FFI edge: `ffi:<abi>`.
pub fn ffi_attribute(abi: &str) -> (a: String)
    ensures
        a@ == "ffi:"@ + abi@,
{
    let mut out: Vec<char> = Vec::new();
    append_str(&mut out, "ffi:");
    append_str(&mut out, abi);
    string_from_chars(out)
}

/// `LIKE` pattern finding the FFI attribute in a stored JSON array.
pub fn ffi_attribute_needle(abi: &str) -> (a: String)
    ensures
        a@ == "%\"ffi:"@ + abi@ + "\"%"@,
{
    let mut out: Vec<char> = Vec::new();
    append_str(&mut out, "%\"ffi:");
    append_str(&mut out, abi);
    append_str(&mut out, "\"%");
    string_from_chars(out)
}

/// Every import is a candidate, an orphan, ambiguous, or pairs with an
/// export on its own symbol.
pub proof fn lemma_ffi_plan_accounts(exports: Seq<SideView>, imports: Seq<SideView>)
    ensures
        ffi_candidates(exports, imports).len() + ffi_orphans(exports, imports) + ffi_ambiguous(exports, imports)
            <= imports.len(),
    decreases imports.len(),
{
    if imports.len() > 0 {
        lemma_ffi_plan_accounts(exports, imports.drop_last());
    }
}

} // verus!
