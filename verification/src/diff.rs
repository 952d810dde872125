//! Symbol diff of a re-extracted file against its stored rows.
//!
//! Each extracted symbol is a new insert (no stored row with its FQDN),
//! a position-only update (stored body hash equal to the new one), or a
//! modification (hash differs). Stored rows whose FQDN no longer appears
//! are deleted. When several stored rows share an FQDN the last one is
//! the one compared against.
use vstd::prelude::*;
use crate::text::str_chars;

verus! {

/// A stored symbol row of the file.
#[derive(Debug, Clone, PartialEq, Eq)]
pub struct DbSymbolRow {
    pub id: i64,
    pub fqdn: String,
    /// Hex body hash, when one was stored.
    pub body_hash: Option<String>,
}

/// An extracted symbol, as far as the diff reads it.
#[derive(Debug, Clone, PartialEq, Eq)]
pub struct ExtractedSymbol {
    pub fqdn: String,
    /// Hex body hash, when the provider computed one.
    pub body_hash: Option<String>,
}

/// The plan: indices into the extracted symbols, paired with the stored
/// row id they update.
#[derive(Debug, Clone, PartialEq, Eq, Default)]
pub struct DiffPlan {
    pub inserts: Vec<usize>,
    pub modifications: Vec<(i64, usize)>,
    pub position_updates: Vec<(i64, usize)>,
    pub deletions: Vec<i64>,
}

pub type RowView = (i64, Seq<char>, Option<Seq<char>>);

pub type SymView = (Seq<char>, Option<Seq<char>>);

pub open spec fn opt_text(o: Option<String>) -> Option<Seq<char>> {
    match o {
        Some(s) => Some(s@),
        None => None,
    }
}

pub open spec fn row_views(s: Seq<DbSymbolRow>) -> Seq<RowView> {
    s.map_values(|r: DbSymbolRow| (r.id, r.fqdn@, opt_text(r.body_hash)))
}

pub open spec fn sym_views(s: Seq<ExtractedSymbol>) -> Seq<SymView> {
    s.map_values(|x: ExtractedSymbol| (x.fqdn@, opt_text(x.body_hash)))
}

/// Index of the last stored row with this FQDN.
pub open spec fn last_row(rows: Seq<RowView>, fqdn: Seq<char>) -> Option<int>
    decreases rows.len(),
{
    if rows.len() == 0 {
        None
    } else if rows.last().1 == fqdn {
        Some(rows.len() - 1)
    } else {
        last_row(rows.drop_last(), fqdn)
    }
}

/// How one extracted symbol is classified.
pub enum Bucket {
    Insert,
    Modify(i64),
    Position(i64),
}

pub open spec fn bucket_of(rows: Seq<RowView>, sym: SymView) -> Bucket {
    match last_row(rows, sym.0) {
        None => Bucket::Insert,
        Some(r) => if rows[r].2 == sym.1 {
            Bucket::Position(rows[r].0)
        } else {
            Bucket::Modify(rows[r].0)
        },
    }
}

pub open spec fn inserts_of(rows: Seq<RowView>, syms: Seq<SymView>) -> Seq<int>
    decreases syms.len(),
{
    if syms.len() == 0 {
        Seq::empty()
    } else {
        let init = inserts_of(rows, syms.drop_last());
        match bucket_of(rows, syms.last()) {
            Bucket::Insert => init.push(syms.len() - 1),
            _ => init,
        }
    }
}

pub open spec fn modifications_of(rows: Seq<RowView>, syms: Seq<SymView>) -> Seq<(i64, int)>
    decreases syms.len(),
{
    if syms.len() == 0 {
        Seq::empty()
    } else {
        let init = modifications_of(rows, syms.drop_last());
        match bucket_of(rows, syms.last()) {
            Bucket::Modify(id) => init.push((id, syms.len() - 1)),
            _ => init,
        }
    }
}

pub open spec fn positions_of(rows: Seq<RowView>, syms: Seq<SymView>) -> Seq<(i64, int)>
    decreases syms.len(),
{
    if syms.len() == 0 {
        Seq::empty()
    } else {
        let init = positions_of(rows, syms.drop_last());
        match bucket_of(rows, syms.last()) {
            Bucket::Position(id) => init.push((id, syms.len() - 1)),
            _ => init,
        }
    }
}

pub open spec fn extracted_has(syms: Seq<SymView>, fqdn: Seq<char>) -> bool {
    exists|j: int| 0 <= j < syms.len() && (#[trigger] syms[j]).0 == fqdn
}

/// Ids of the stored rows whose FQDN was not extracted again, in order.
pub open spec fn deletions_of(rows: Seq<RowView>, syms: Seq<SymView>) -> Seq<i64>
    decreases rows.len(),
{
    if rows.len() == 0 {
        Seq::empty()
    } else {
        let init = deletions_of(rows.drop_last(), syms);
        if extracted_has(syms, rows.last().1) {
            init
        } else {
            init.push(rows.last().0)
        }
    }
}

pub open spec fn usize_seq(s: Seq<usize>) -> Seq<int> {
    s.map_values(|x: usize| x as int)
}

pub open spec fn pair_seq(s: Seq<(i64, usize)>) -> Seq<(i64, int)> {
    s.map_values(|x: (i64, usize)| (x.0, x.1 as int))
}

fn opt_text_eq(a: &Option<String>, b: &Option<String>) -> (r: bool)
    ensures
        r == (opt_text(*a) == opt_text(*b)),
{
    match (a, b) {
        (None, None) => true,
        (Some(x), Some(y)) => crate::text::string_eq(x, y),
        _ => false,
    }
}

/// Index of the last stored row with this FQDN.
fn find_last_row(existing: &[DbSymbolRow], fqdn: &String) -> (r: Option<usize>)
    ensures
        r matches Some(i) ==> i < existing.len(),
        match r {
            Some(i) => last_row(row_views(existing@), fqdn@) == Some(i as int),
            None => last_row(row_views(existing@), fqdn@) is None,
        },
{
    let ghost rv = row_views(existing@);
    let mut i: usize = existing.len();
    assert(rv.take(rv.len() as int) =~= rv);
    while i > 0
        invariant
            i <= existing.len(),
            rv == row_views(existing@),
            last_row(rv, fqdn@) == last_row(rv.take(i as int), fqdn@),
        decreases i,
    {
        let row = &existing[i - 1];
        assert(rv.take(i as int).last() == rv[i - 1]);
        assert(rv.take(i as int).drop_last() =~= rv.take(i - 1));
        if crate::text::string_eq(&row.fqdn, fqdn) {
            return Some(i - 1);
        }
        i -= 1;
    }
    None
}

fn extracted_contains(extracted: &[ExtractedSymbol], fqdn: &String) -> (b: bool)
    ensures
        b == extracted_has(sym_views(extracted@), fqdn@),
{
    let ghost sv = sym_views(extracted@);
    let mut j: usize = 0;
    while j < extracted.len()
        invariant
            j <= extracted.len(),
            sv == sym_views(extracted@),
            forall|k: int| 0 <= k < j ==> (#[trigger] sv[k]).0 != fqdn@,
        decreases extracted.len() - j,
    {
        if crate::text::string_eq(&extracted[j].fqdn, fqdn) {
            assert(sv[j as int].0 == fqdn@);
            return true;
        }
        j += 1;
    }
    false
}

/// Diffs the extracted symbols of a file against its stored rows.
pub fn diff_symbols(existing: &[DbSymbolRow], extracted: &[ExtractedSymbol]) -> (plan: DiffPlan)
    ensures
        usize_seq(plan.inserts@) == inserts_of(row_views(existing@), sym_views(extracted@)),
        pair_seq(plan.modifications@) == modifications_of(row_views(existing@), sym_views(extracted@)),
        pair_seq(plan.position_updates@) == positions_of(row_views(existing@), sym_views(extracted@)),
        plan.deletions@ == deletions_of(row_views(existing@), sym_views(extracted@)),
{
    let ghost rv = row_views(existing@);
    let ghost sv = sym_views(extracted@);
    let mut plan = DiffPlan {
        inserts: Vec::new(),
        modifications: Vec::new(),
        position_updates: Vec::new(),
        deletions: Vec::new(),
    };
    let mut j: usize = 0;
    assert(sv.take(0) =~= Seq::<SymView>::empty());
    assert(usize_seq(plan.inserts@) =~= Seq::<int>::empty());
    assert(pair_seq(plan.modifications@) =~= Seq::<(i64, int)>::empty());
    assert(pair_seq(plan.position_updates@) =~= Seq::<(i64, int)>::empty());
    while j < extracted.len()
        invariant
            j <= extracted.len(),
            rv == row_views(existing@),
            sv == sym_views(extracted@),
            usize_seq(plan.inserts@) == inserts_of(rv, sv.take(j as int)),
            pair_seq(plan.modifications@) == modifications_of(rv, sv.take(j as int)),
            pair_seq(plan.position_updates@) == positions_of(rv, sv.take(j as int)),
            plan.deletions@ == Seq::<i64>::empty(),
        decreases extracted.len() - j,
    {
        let sym = &extracted[j];
        assert(sv.take(j + 1).drop_last() =~= sv.take(j as int));
        assert(sv.take(j + 1).last() == sv[j as int]);
        let ghost ins = usize_seq(plan.inserts@);
        let ghost mods = pair_seq(plan.modifications@);
        let ghost pos = pair_seq(plan.position_updates@);
        match find_last_row(existing, &sym.fqdn) {
            None => {
                plan.inserts.push(j);
                assert(usize_seq(plan.inserts@) =~= ins.push(j as int));
            },
            Some(r) => {
                let row = &existing[r];
                assert(rv[r as int] == (row.id, row.fqdn@, opt_text(row.body_hash)));
                if opt_text_eq(&sym.body_hash, &row.body_hash) {
                    plan.position_updates.push((row.id, j));
                    assert(pair_seq(plan.position_updates@) =~= pos.push((row.id, j as int)));
                } else {
                    plan.modifications.push((row.id, j));
                    assert(pair_seq(plan.modifications@) =~= mods.push((row.id, j as int)));
                }
            },
        }
        j += 1;
    }
    assert(sv.take(extracted.len() as int) =~= sv);
    let mut i: usize = 0;
    assert(rv.take(0) =~= Seq::<RowView>::empty());
    while i < existing.len()
        invariant
            i <= existing.len(),
            rv == row_views(existing@),
            sv == sym_views(extracted@),
            plan.deletions@ == deletions_of(rv.take(i as int), sv),
            usize_seq(plan.inserts@) == inserts_of(rv, sv),
            pair_seq(plan.modifications@) == modifications_of(rv, sv),
            pair_seq(plan.position_updates@) == positions_of(rv, sv),
        decreases existing.len() - i,
    {
        let row = &existing[i];
        assert(rv.take(i + 1).drop_last() =~= rv.take(i as int));
        assert(rv.take(i + 1).last() == rv[i as int]);
        if !extracted_contains(extracted, &row.fqdn) {
            plan.deletions.push(row.id);
        }
        i += 1;
    }
    assert(rv.take(existing.len() as int) =~= rv);
    plan
}

/// `r` is the last stored row with this FQDN.
pub open spec fn is_last_with(rows: Seq<RowView>, r: int, fqdn: Seq<char>) -> bool {
    &&& 0 <= r < rows.len()
    &&& rows[r].1 == fqdn
    &&& forall|r2: int| r < r2 < rows.len() ==> (#[trigger] rows[r2]).1 != fqdn
}

proof fn lemma_last_row(rows: Seq<RowView>, fqdn: Seq<char>)
    ensures
        last_row(rows, fqdn) matches Some(r) ==> is_last_with(rows, r, fqdn),
        last_row(rows, fqdn) is None ==> forall|r: int| 0 <= r < rows.len() ==> (#[trigger] rows[r]).1 != fqdn,
        forall|r: int| is_last_with(rows, r, fqdn) ==> last_row(rows, fqdn) == Some(r),
    decreases rows.len(),
{
    if rows.len() > 0 {
        let init = rows.drop_last();
        lemma_last_row(init, fqdn);
        assert forall|r: int| 0 <= r < rows.len() - 1 implies #[trigger] rows[r] == init[r] by {}
        assert forall|r: int| is_last_with(rows, r, fqdn) implies last_row(rows, fqdn) == Some(r) by {
            if r < rows.len() - 1 {
                assert(rows[rows.len() - 1].1 != fqdn);
                assert(is_last_with(init, r, fqdn));
            }
        }
    }
}

/// The last stored row with `fqdn` has `id`, and its body hash is equal
/// (`same`) or not to `hash`.
pub open spec fn row_matches(rows: Seq<RowView>, id: i64, fqdn: Seq<char>, hash: Option<Seq<char>>, same: bool) -> bool {
    exists|r: int| is_last_with(rows, r, fqdn) && (#[trigger] rows[r]).0 == id && ((rows[r].2 == hash) == same)
}

/// Each planned update pairs a stored row with the extracted symbol of
/// the same FQDN: a modification `(id, j)` names the last stored row with
/// the FQDN of extracted symbol `j`, whose hash differs from it; a
/// position update the same with an equal hash; an insert names an
/// extracted symbol whose FQDN no stored row has.
pub proof fn lemma_diff_pairs_same_fqdn(rows: Seq<RowView>, syms: Seq<SymView>)
    ensures
        forall|k: int| 0 <= k < modifications_of(rows, syms).len() ==> {
            let (id, j) = #[trigger] modifications_of(rows, syms)[k];
            0 <= j < syms.len() && row_matches(rows, id, syms[j].0, syms[j].1, false)
        },
        forall|k: int| 0 <= k < positions_of(rows, syms).len() ==> {
            let (id, j) = #[trigger] positions_of(rows, syms)[k];
            0 <= j < syms.len() && row_matches(rows, id, syms[j].0, syms[j].1, true)
        },
        forall|k: int| 0 <= k < inserts_of(rows, syms).len() ==> {
            let j = #[trigger] inserts_of(rows, syms)[k];
            0 <= j < syms.len() && forall|r: int| 0 <= r < rows.len() ==> (#[trigger] rows[r]).1 != syms[j].0
        },
    decreases syms.len(),
{
    if syms.len() > 0 {
        let init = syms.drop_last();
        lemma_diff_pairs_same_fqdn(rows, init);
        let n = syms.len() - 1;
        let last = syms.last();
        assert(last == syms[n]);
        assert forall|j: int| 0 <= j < init.len() implies #[trigger] init[j] == syms[j] by {}
        lemma_last_row(rows, last.0);
        let m0 = modifications_of(rows, init);
        let p0 = positions_of(rows, init);
        let i0 = inserts_of(rows, init);
        let m = modifications_of(rows, syms);
        let p = positions_of(rows, syms);
        let i = inserts_of(rows, syms);
        assert forall|k: int| 0 <= k < m.len() implies {
            let (id, j) = #[trigger] m[k];
            0 <= j < syms.len() && row_matches(rows, id, syms[j].0, syms[j].1, false)
        } by {
            if k < m0.len() {
                assert(m[k] == m0[k]);
                let (id, j) = m0[k];
                assert(init[j] == syms[j]);
            } else {
                let r = last_row(rows, last.0)->0;
                assert(m[k] == (rows[r].0, n));
                assert(rows[r].2 != last.1);
            }
        }
        assert forall|k: int| 0 <= k < p.len() implies {
            let (id, j) = #[trigger] p[k];
            0 <= j < syms.len() && row_matches(rows, id, syms[j].0, syms[j].1, true)
        } by {
            if k < p0.len() {
                assert(p[k] == p0[k]);
                let (id, j) = p0[k];
                assert(init[j] == syms[j]);
            } else {
                let r = last_row(rows, last.0)->0;
                assert(p[k] == (rows[r].0, n));
                assert(rows[r].2 == last.1);
            }
        }
        assert forall|k: int| 0 <= k < i.len() implies {
            let j = #[trigger] i[k];
            0 <= j < syms.len() && forall|r: int| 0 <= r < rows.len() ==> (#[trigger] rows[r]).1 != syms[j].0
        } by {
            if k < i0.len() {
                assert(i[k] == i0[k]);
                assert(init[i0[k]] == syms[i0[k]]);
            } else {
                assert(i[k] == n);
            }
        }
    }
}

/// Every extracted symbol is planned: one whose FQDN no stored row has is
/// inserted; otherwise, with `r` the last stored row of its FQDN, it is a
/// position update of `r` when the hashes are equal, else a modification
/// of `r`.
pub proof fn lemma_diff_covers_every_symbol(rows: Seq<RowView>, syms: Seq<SymView>)
    ensures
        forall|j: int| 0 <= j < syms.len() && (forall|r: int| 0 <= r < rows.len() ==> (#[trigger] rows[r]).1 != syms[j].0)
            ==> #[trigger] inserts_of(rows, syms).contains(j),
        forall|j: int, r: int| 0 <= j < syms.len() && is_last_with(rows, r, (#[trigger] syms[j]).0) && (#[trigger] rows[r]).2 == syms[j].1
            ==> positions_of(rows, syms).contains((rows[r].0, j)),
        forall|j: int, r: int| 0 <= j < syms.len() && is_last_with(rows, r, (#[trigger] syms[j]).0) && (#[trigger] rows[r]).2 != syms[j].1
            ==> modifications_of(rows, syms).contains((rows[r].0, j)),
    decreases syms.len(),
{
    if syms.len() > 0 {
        let init = syms.drop_last();
        lemma_diff_covers_every_symbol(rows, init);
        let n = syms.len() - 1;
        let last = syms.last();
        assert(last == syms[n]);
        assert forall|j: int| 0 <= j < init.len() implies #[trigger] init[j] == syms[j] by {}
        lemma_last_row(rows, last.0);
        let i0 = inserts_of(rows, init);
        let m0 = modifications_of(rows, init);
        let p0 = positions_of(rows, init);
        let i = inserts_of(rows, syms);
        let m = modifications_of(rows, syms);
        let p = positions_of(rows, syms);
        assert(forall|x: int| i0.contains(x) ==> #[trigger] i.contains(x)) by {
            assert forall|x: int| i0.contains(x) implies #[trigger] i.contains(x) by {
                let k = choose|k: int| 0 <= k < i0.len() && i0[k] == x;
                assert(i[k] == i0[k]);
            }
        }
        assert(forall|x: (i64, int)| m0.contains(x) ==> #[trigger] m.contains(x)) by {
            assert forall|x: (i64, int)| m0.contains(x) implies #[trigger] m.contains(x) by {
                let k = choose|k: int| 0 <= k < m0.len() && m0[k] == x;
                assert(m[k] == m0[k]);
            }
        }
        assert(forall|x: (i64, int)| p0.contains(x) ==> #[trigger] p.contains(x)) by {
            assert forall|x: (i64, int)| p0.contains(x) implies #[trigger] p.contains(x) by {
                let k = choose|k: int| 0 <= k < p0.len() && p0[k] == x;
                assert(p[k] == p0[k]);
            }
        }
        assert forall|j: int| 0 <= j < syms.len() && (forall|r: int| 0 <= r < rows.len() ==> (#[trigger] rows[r]).1 != syms[j].0)
            implies #[trigger] i.contains(j) by {
            if j < n {
                assert(init[j] == syms[j]);
                assert(i0.contains(j));
            } else {
                if let Some(r) = last_row(rows, last.0) {
                    assert(rows[r].1 == last.0);
                }
                assert(i[i0.len() as int] == n);
            }
        }
        assert forall|j: int, r: int| 0 <= j < syms.len() && is_last_with(rows, r, (#[trigger] syms[j]).0) && (#[trigger] rows[r]).2 == syms[j].1
            implies p.contains((rows[r].0, j)) by {
            if j < n {
                assert(init[j] == syms[j]);
                assert(is_last_with(rows, r, init[j].0));
                assert(p0.contains((rows[r].0, j)));
            } else {
                assert(last_row(rows, last.0) == Some(r));
                assert(p[p0.len() as int] == (rows[r].0, n));
            }
        }
        assert forall|j: int, r: int| 0 <= j < syms.len() && is_last_with(rows, r, (#[trigger] syms[j]).0) && (#[trigger] rows[r]).2 != syms[j].1
            implies m.contains((rows[r].0, j)) by {
            if j < n {
                assert(init[j] == syms[j]);
                assert(is_last_with(rows, r, init[j].0));
                assert(m0.contains((rows[r].0, j)));
            } else {
                assert(last_row(rows, last.0) == Some(r));
                assert(m[m0.len() as int] == (rows[r].0, n));
            }
        }
    }
}

/// Every extracted symbol lands in exactly one bucket: the three lists
/// together have one entry per extracted symbol.
pub proof fn lemma_diff_partitions(rows: Seq<RowView>, syms: Seq<SymView>)
    ensures
        inserts_of(rows, syms).len() + modifications_of(rows, syms).len() + positions_of(rows, syms).len()
            == syms.len(),
    decreases syms.len(),
{
    if syms.len() > 0 {
        lemma_diff_partitions(rows, syms.drop_last());
    }
}

/// A stored row is deleted exactly when its FQDN was not extracted again.
pub proof fn lemma_deletions_exact(rows: Seq<RowView>, syms: Seq<SymView>, id: i64)
    requires
        forall|a: int, b: int| 0 <= a < b < rows.len() ==> (#[trigger] rows[a]).0 != (#[trigger] rows[b]).0,
    ensures
        deletions_of(rows, syms).contains(id) <==> exists|k: int|
            0 <= k < rows.len() && (#[trigger] rows[k]).0 == id && !extracted_has(syms, rows[k].1),
    decreases rows.len(),
{
    if rows.len() > 0 {
        let init = rows.drop_last();
        assert forall|a: int, b: int| 0 <= a < b < init.len() implies (#[trigger] init[a]).0 != (#[trigger] init[b]).0 by {
            assert(init[a] == rows[a]);
            assert(init[b] == rows[b]);
        }
        lemma_deletions_exact(init, syms, id);
        let d = deletions_of(init, syms);
        let last = rows.last();
        assert(rows[rows.len() - 1] == last);
        if exists|k: int| 0 <= k < rows.len() && (#[trigger] rows[k]).0 == id && !extracted_has(syms, rows[k].1) {
            let k = choose|k: int| 0 <= k < rows.len() && (#[trigger] rows[k]).0 == id && !extracted_has(syms, rows[k].1);
            if k < rows.len() - 1 {
                assert(init[k] == rows[k]);
                assert(d.contains(id));
                if !extracted_has(syms, last.1) {
                    assert(d.push(last.0)[d.len() as int] == last.0);
                    let m = choose|m: int| 0 <= m < d.len() && d[m] == id;
                    assert(d.push(last.0)[m] == id);
                }
            } else {
                assert(d.push(last.0)[d.len() as int] == id);
            }
        }
        if deletions_of(rows, syms).contains(id) {
            let r = deletions_of(rows, syms);
            let m = choose|m: int| 0 <= m < r.len() && r[m] == id;
            if extracted_has(syms, last.1) || m < d.len() {
                if !extracted_has(syms, last.1) {
                    assert(r[m] == d[m]);
                }
                assert(d.contains(id));
                let k = choose|k: int| 0 <= k < init.len() && (#[trigger] init[k]).0 == id && !extracted_has(syms, init[k].1);
                assert(rows[k] == init[k]);
            } else {
                assert(rows[rows.len() - 1].0 == id);
            }
        }
    }
}

} // verus!
