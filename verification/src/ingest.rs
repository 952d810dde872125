//! Per-file ingestion decisions: what an extraction result becomes,
//! which rows a write touches, and the file row of a parse error.
use vstd::prelude::*;
use crate::diff::{DiffPlan, ExtractedSymbol};
use crate::paths::Language;
use crate::provider::ExtractError;
use crate::text::{append_str, str_chars, string_from_chars};
use crate::workspace::string_views;

verus! {

/// What one path of a scan produced.
#[derive(Debug, Clone, PartialEq, Eq)]
pub enum Outcome<T> {
    Upsert { rel: String, extracted: T },
    ParseError { rel: String, language: Language, detail: String },
    /// The stored content hash already matches.
    Skip { rel: String },
}

/// What a provider's answer becomes: an extraction is upserted, a parse
/// error is recorded when the extension names a language, anything else
/// is dropped (and logged by the caller).
pub fn outcome_of_extraction<T>(rel: String, result: Result<T, ExtractError>) -> (o: Option<Outcome<T>>)
    ensures
        match result {
            Ok(x) => o == Some(Outcome::Upsert { rel, extracted: x }),
            Err(ExtractError::Parse { file, detail }) => match crate::paths::guessed_language(rel@) {
                Some(l) => o matches Some(Outcome::ParseError { rel: r, language, detail: d }) && r == rel
                    && language == l && d == detail,
                None => o is None,
            },
            Err(_) => o is None,
        },
{
    match result {
        Ok(x) => Some(Outcome::Upsert { rel, extracted: x }),
        Err(ExtractError::Parse { file, detail }) => match crate::paths::guess_language(rel.as_str()) {
            Some(language) => Some(Outcome::ParseError { rel, language, detail }),
            None => None,
        },
        Err(_) => None,
    }
}

pub open spec fn is_write<T>(o: Outcome<T>) -> bool {
    !(o is Skip)
}

/// A batch is committed only when some outcome writes.
pub fn has_writes<T>(outcomes: &[Outcome<T>]) -> (b: bool)
    ensures
        b == exists|i: int| 0 <= i < outcomes@.len() && is_write(#[trigger] outcomes@[i]),
{
    let mut i: usize = 0;
    while i < outcomes.len()
        invariant
            i <= outcomes.len(),
            forall|k: int| 0 <= k < i ==> !is_write(#[trigger] outcomes@[k]),
        decreases outcomes.len() - i,
    {
        match &outcomes[i] {
            Outcome::Skip { .. } => {},
            _ => {
                assert(is_write(outcomes@[i as int]));
                return true;
            },
        }
        i += 1;
    }
    false
}

/// Revision stamped on a batch's writes: one past the current, saturating.
pub fn next_revision(current: u64) -> (r: u64)
    ensures
        r == if current == u64::MAX { u64::MAX } else { (current + 1) as u64 },
{
    if current == u64::MAX {
        u64::MAX
    } else {
        current + 1
    }
}

// ---------------------------------------------------------------------
// Touched symbols
// ---------------------------------------------------------------------

/// FQDNs of the symbols a write inserts or modifies.
pub open spec fn touched(plan_inserts: Seq<int>, plan_mods: Seq<(i64, int)>, syms: Seq<ExtractedSymbol>, f: Seq<char>) -> bool {
    ||| exists|k: int| 0 <= k < plan_inserts.len() && syms[#[trigger] plan_inserts[k]].fqdn@ == f
    ||| exists|k: int| 0 <= k < plan_mods.len() && syms[(#[trigger] plan_mods[k]).1].fqdn@ == f
}

/// The FQDNs touched by a plan, one entry per insert then per modification.
pub fn touched_fqdns(plan: &DiffPlan, symbols: &[ExtractedSymbol]) -> (v: Vec<String>)
    requires
        forall|k: int| 0 <= k < plan.inserts@.len() ==> #[trigger] plan.inserts@[k] < symbols@.len(),
        forall|k: int| 0 <= k < plan.modifications@.len() ==> (#[trigger] plan.modifications@[k]).1 < symbols@.len(),
    ensures
        forall|f: Seq<char>| string_views(v@).contains(f) <==> touched(
            crate::diff::usize_seq(plan.inserts@),
            crate::diff::pair_seq(plan.modifications@),
            symbols@,
            f,
        ),
{
    let ghost ins = crate::diff::usize_seq(plan.inserts@);
    let ghost mods = crate::diff::pair_seq(plan.modifications@);
    let mut v: Vec<String> = Vec::new();
    let mut i: usize = 0;
    while i < plan.inserts.len()
        invariant
            i <= plan.inserts.len(),
            ins == crate::diff::usize_seq(plan.inserts@),
            forall|k: int| 0 <= k < plan.inserts@.len() ==> #[trigger] plan.inserts@[k] < symbols@.len(),
            v@.len() == i,
            forall|k: int| 0 <= k < i ==> (#[trigger] v@[k])@ == symbols@[ins[k]].fqdn@,
        decreases plan.inserts.len() - i,
    {
        let j = plan.inserts[i];
        v.push(symbols[j].fqdn.clone());
        i += 1;
    }
    let n1 = v.len();
    let mut m: usize = 0;
    while m < plan.modifications.len()
        invariant
            m <= plan.modifications.len(),
            n1 == plan.inserts@.len(),
            ins == crate::diff::usize_seq(plan.inserts@),
            mods == crate::diff::pair_seq(plan.modifications@),
            forall|k: int| 0 <= k < plan.modifications@.len() ==> (#[trigger] plan.modifications@[k]).1 < symbols@.len(),
            v@.len() == n1 + m,
            forall|k: int| 0 <= k < n1 ==> (#[trigger] v@[k])@ == symbols@[ins[k]].fqdn@,
            forall|k: int| 0 <= k < m ==> (#[trigger] v@[n1 + k])@ == symbols@[mods[k].1].fqdn@,
        decreases plan.modifications.len() - m,
    {
        let j = plan.modifications[m].1;
        v.push(symbols[j].fqdn.clone());
        m += 1;
        assert(v@[n1 + m - 1]@ == symbols@[mods[m - 1].1].fqdn@);
    }
    proof {
        let sv = string_views(v@);
        assert forall|f: Seq<char>| sv.contains(f) <==> touched(ins, mods, symbols@, f) by {
            if sv.contains(f) {
                let x = choose|x: int| 0 <= x < sv.len() && sv[x] == f;
                if x < n1 {
                    assert(syms_at(symbols@, ins[x]) == f);
                } else {
                    assert(v@[n1 + (x - n1)]@ == symbols@[mods[x - n1].1].fqdn@);
                }
            }
            if touched(ins, mods, symbols@, f) {
                if exists|k: int| 0 <= k < ins.len() && symbols@[#[trigger] ins[k]].fqdn@ == f {
                    let k = choose|k: int| 0 <= k < ins.len() && symbols@[#[trigger] ins[k]].fqdn@ == f;
                    assert(sv[k] == f);
                } else {
                    let k = choose|k: int| 0 <= k < mods.len() && symbols@[(#[trigger] mods[k]).1].fqdn@ == f;
                    assert(v@[n1 + k]@ == f);
                    assert(sv[n1 + k] == f);
                }
            }
        }
    }
    v
}

pub open spec fn syms_at(s: Seq<ExtractedSymbol>, i: int) -> Seq<char> {
    s[i].fqdn@
}

/// Indices of the items whose owner FQDN is touched (edges from a
/// touched symbol; documents of a touched symbol).
pub fn select_touched(owners: &[String], touched: &Vec<String>) -> (v: Vec<usize>)
    ensures
        forall|k: int| 0 <= k < v@.len() ==> #[trigger] v@[k] < owners@.len()
            && string_views(touched@).contains(owners@[v@[k] as int]@),
        forall|i: int| 0 <= i < owners@.len() && string_views(touched@).contains(#[trigger] owners@[i]@)
            ==> v@.contains(i as usize),
        forall|a: int, b: int| 0 <= a < b < v@.len() ==> #[trigger] v@[a] < #[trigger] v@[b],
{
    let mut v: Vec<usize> = Vec::new();
    let mut i: usize = 0;
    while i < owners.len()
        invariant
            i <= owners.len(),
            forall|k: int| 0 <= k < v@.len() ==> #[trigger] v@[k] < i && string_views(touched@).contains(
                owners@[v@[k] as int]@,
            ),
            forall|x: int| 0 <= x < i && string_views(touched@).contains(#[trigger] owners@[x]@)
                ==> v@.contains(x as usize),
            forall|a: int, b: int| 0 <= a < b < v@.len() ==> #[trigger] v@[a] < #[trigger] v@[b],
        decreases owners.len() - i,
    {
        if contains_text(touched, &owners[i]) {
            let ghost before = v@;
            v.push(i);
            proof {
                assert forall|x: int| 0 <= x < i + 1 && string_views(touched@).contains(#[trigger] owners@[x]@)
                    implies v@.contains(x as usize) by {
                    if x < i {
                        let k = choose|k: int| 0 <= k < before.len() && before[k] == x as usize;
                        assert(v@[k] == x as usize);
                    } else {
                        assert(v@[before.len() as int] == i);
                    }
                }
            }
        }
        i += 1;
    }
    v
}

fn contains_text(v: &Vec<String>, t: &String) -> (b: bool)
    ensures
        b == string_views(v@).contains(t@),
{
    let mut i: usize = 0;
    while i < v.len()
        invariant
            i <= v.len(),
            forall|k: int| 0 <= k < i ==> string_views(v@)[k] != t@,
        decreases v.len() - i,
    {
        if crate::text::string_eq(&v[i], t) {
            assert(string_views(v@)[i as int] == t@);
            return true;
        }
        i += 1;
    }
    false
}

// ---------------------------------------------------------------------
// FFI bindings of a file
// ---------------------------------------------------------------------

/// Groups bindings by the symbol they resolved to (unresolved bindings
/// are dropped): each group is cleared then re-filled in one go.
pub fn group_bindings(resolved: &[Option<i64>]) -> (groups: Vec<(i64, Vec<usize>)>)
    ensures
        forall|a: int, b: int| 0 <= a < b < groups@.len() ==> (#[trigger] groups@[a]).0 != (#[trigger] groups@[b]).0,
        forall|g: int, k: int| 0 <= g < groups@.len() && 0 <= k < groups@[g].1@.len() ==> {
            let i = #[trigger] groups@[g].1@[k];
            i < resolved@.len() && resolved@[i as int] == Some(groups@[g].0)
        },
        forall|i: int| 0 <= i < resolved@.len() && (#[trigger] resolved@[i]) is Some ==> exists|g: int|
            0 <= g < groups@.len() && groups@[g].0 == resolved@[i]->0 && groups@[g].1@.contains(i as usize),
{
    let mut groups: Vec<(i64, Vec<usize>)> = Vec::new();
    let mut i: usize = 0;
    while i < resolved.len()
        invariant
            i <= resolved.len(),
            forall|a: int, b: int| 0 <= a < b < groups@.len() ==> (#[trigger] groups@[a]).0 != (#[trigger] groups@[b]).0,
            forall|g: int, k: int| 0 <= g < groups@.len() && 0 <= k < groups@[g].1@.len() ==> {
                let x = #[trigger] groups@[g].1@[k];
                x < i && resolved@[x as int] == Some(groups@[g].0)
            },
            forall|x: int| 0 <= x < i && (#[trigger] resolved@[x]) is Some ==> exists|g: int|
                0 <= g < groups@.len() && groups@[g].0 == resolved@[x]->0 && groups@[g].1@.contains(x as usize),
        decreases resolved.len() - i,
    {
        match resolved[i] {
            None => {},
            Some(id) => {
                let mut g: usize = 0;
                while g < groups.len() && groups[g].0 != id
                    invariant
                        g <= groups.len(),
                        forall|k: int| 0 <= k < g ==> (#[trigger] groups@[k]).0 != id,
                    decreases groups.len() - g,
                {
                    g += 1;
                }
                let ghost before = groups@;
                if g < groups.len() {
                    let mut members = groups[g].1.clone();
                    let ghost old_members = members@;
                    members.push(i);
                    groups.set(g, (id, members));
                    proof {
                        assert forall|a: int, b: int| 0 <= a < b < groups@.len() implies (#[trigger] groups@[a]).0 != (#[trigger] groups@[b]).0 by {
                            assert(groups@[a].0 == before[a].0);
                            assert(groups@[b].0 == before[b].0);
                        }
                        assert forall|gg: int, k: int| 0 <= gg < groups@.len() && 0 <= k < groups@[gg].1@.len() implies {
                            let x = #[trigger] groups@[gg].1@[k];
                            x < i + 1 && resolved@[x as int] == Some(groups@[gg].0)
                        } by {
                            if gg == g {
                                if k < old_members.len() {
                                    assert(groups@[gg].1@[k] == before[gg].1@[k]);
                                }
                            } else {
                                assert(groups@[gg] == before[gg]);
                            }
                        }
                        assert forall|x: int| 0 <= x < i + 1 && (#[trigger] resolved@[x]) is Some implies exists|gg: int|
                            0 <= gg < groups@.len() && groups@[gg].0 == resolved@[x]->0 && groups@[gg].1@.contains(x as usize) by {
                            if x < i {
                                let gg = choose|gg: int| 0 <= gg < before.len() && before[gg].0 == resolved@[x]->0 && before[gg].1@.contains(x as usize);
                                let k = choose|k: int| 0 <= k < before[gg].1@.len() && before[gg].1@[k] == x as usize;
                                if gg == g {
                                    assert(groups@[gg].1@[k] == x as usize);
                                } else {
                                    assert(groups@[gg] == before[gg]);
                                }
                            } else {
                                assert(groups@[g as int].1@[old_members.len() as int] == i);
                            }
                        }
                    }
                } else {
                    let mut members: Vec<usize> = Vec::new();
                    members.push(i);
                    groups.push((id, members));
                    proof {
                        assert forall|a: int, b: int| 0 <= a < b < groups@.len() implies (#[trigger] groups@[a]).0 != (#[trigger] groups@[b]).0 by {
                            assert(groups@[a].0 == before[a].0);
                            if b < before.len() {
                                assert(groups@[b].0 == before[b].0);
                            }
                        }
                        assert forall|gg: int, k: int| 0 <= gg < groups@.len() && 0 <= k < groups@[gg].1@.len() implies {
                            let x = #[trigger] groups@[gg].1@[k];
                            x < i + 1 && resolved@[x as int] == Some(groups@[gg].0)
                        } by {
                            if gg < before.len() {
                                assert(groups@[gg] == before[gg]);
                            }
                        }
                        assert forall|x: int| 0 <= x < i + 1 && (#[trigger] resolved@[x]) is Some implies exists|gg: int|
                            0 <= gg < groups@.len() && groups@[gg].0 == resolved@[x]->0 && groups@[gg].1@.contains(x as usize) by {
                            if x < i {
                                let gg = choose|gg: int| 0 <= gg < before.len() && before[gg].0 == resolved@[x]->0 && before[gg].1@.contains(x as usize);
                                assert(groups@[gg] == before[gg]);
                            } else {
                                assert(groups@[before.len() as int].1@[0] == i);
                            }
                        }
                    }
                }
            },
        }
        i += 1;
    }
    groups
}

// ---------------------------------------------------------------------
// Parse errors
// ---------------------------------------------------------------------

/// A stored file row.
#[derive(Debug, Clone, PartialEq, Eq)]
pub struct FileRow {
    pub path: String,
    /// Hex content hash (all zeroes when unknown).
    pub content_hash: String,
    pub language: Language,
    pub byte_size: u64,
    pub last_scanned: i64,
    pub last_scan_error: Option<String>,
    pub is_external: bool,
}

/// The row written for a parse error: the stored row with the error and
/// scan time updated, or a fresh row with an unknown hash and no size.
pub fn parse_error_row(existing: Option<FileRow>, path: String, language: Language, detail: String, now: i64) -> (r: FileRow)
    ensures
        match existing {
            Some(prev) => r == FileRow { last_scan_error: Some(detail), last_scanned: now, ..prev },
            None => r.path == path && r.content_hash@ == crate::lockfiles::hex_lower(
                Seq::new(32, |_i: int| 0u8),
            ) && r.language == language && r.byte_size == 0 && r.last_scanned == now
                && r.last_scan_error == Some(detail) && !r.is_external,
        },
{
    match existing {
        Some(prev) => FileRow { last_scan_error: Some(detail), last_scanned: now, ..prev },
        None => {
            let zero: Vec<u8> = vec![0u8; 32];
            assert(zero@ =~= Seq::new(32, |_i: int| 0u8));
            let hex = crate::lockfiles::to_hex_lower(&zero);
            FileRow {
                path,
                content_hash: string_from_chars(hex),
                language,
                byte_size: 0,
                last_scanned: now,
                last_scan_error: Some(detail),
                is_external: false,
            }
        },
    }
}

// ---------------------------------------------------------------------
// Clock
// ---------------------------------------------------------------------

/// Milliseconds since the Unix epoch per the system clock
/// (`SystemTime::now().duration_since(UNIX_EPOCH)`); when the clock is
/// before the epoch, the text of std's `SystemTimeError`. Nothing is
/// claimed about either: they are the time.
#[verifier::external_body]
fn system_clock_ms() -> (r: Result<u128, String>) {
    match std::time::SystemTime::now().duration_since(std::time::UNIX_EPOCH) {
        Ok(d) => Ok(d.as_millis()),
        Err(e) => Err(e.to_string()),
    }
}

/// Decimal digits of `n`.
pub open spec fn decimal(n: nat) -> Seq<char>
    decreases n,
{
    if n < 10 {
        seq![(n + 48) as char]
    } else {
        decimal(n / 10).push(((n % 10) + 48) as char)
    }
}

pub fn decimal_text(n: u128) -> (s: Vec<char>)
    ensures
        s@ == decimal(n as nat),
    decreases n,
{
    if n < 10 {
        let c = ((n as u8) + 48) as char;
        let mut v: Vec<char> = Vec::new();
        v.push(c);
        assert(v@ =~= decimal(n as nat));
        v
    } else {
        let mut v = decimal_text(n / 10);
        let d = ((n % 10) as u8 + 48) as char;
        v.push(d);
        v
    }
}

/// A clock reading in milliseconds as stored (`i64`): a value beyond
/// `i64::MAX` is refused with its text.
pub fn unix_ms_from(ms: u128) -> (r: Result<i64, String>)
    ensures
        ms <= i64::MAX ==> r == Ok::<i64, String>(ms as i64),
        ms > i64::MAX ==> (r matches Err(e) && e@ == "unix_ms "@ + decimal(ms as nat) + " exceeds i64::MAX"@),
{
    if ms <= 0x7fff_ffff_ffff_ffff {
        Ok(ms as i64)
    } else {
        let mut out: Vec<char> = Vec::new();
        append_str(&mut out, "unix_ms ");
        let d = decimal_text(ms);
        crate::text::push_all(&mut out, &d);
        append_str(&mut out, " exceeds i64::MAX");
        Err(string_from_chars(out))
    }
}

/// Current time in Unix milliseconds: whatever the clock says; before
/// the epoch the clock's own error text, beyond `i64` the overflow error
/// of [`unix_ms_from`].
pub fn current_unix_ms() -> (r: Result<i64, String>)
    ensures
        r matches Ok(v) ==> v >= 0,
{
    match system_clock_ms() {
        Err(e) => Err(e),
        Ok(ms) => unix_ms_from(ms),
    }
}

/// A clock reading as a millisecond timestamp that never fails: a clock
/// before the epoch reads 0 and a reading beyond `i64` saturates.
pub fn epoch_ms_of(reading: Option<u128>) -> (r: i64)
    ensures
        match reading {
            None => r == 0,
            Some(ms) => r == if ms <= i64::MAX { ms as i64 } else { i64::MAX },
        },
{
    match reading {
        None => 0,
        Some(ms) => if ms <= 0x7fff_ffff_ffff_ffff {
            ms as i64
        } else {
            0x7fff_ffff_ffff_ffff
        },
    }
}

/// Current Unix time in milliseconds, saturating (see [`epoch_ms_of`]).
pub fn epoch_ms_now() -> (r: i64)
    ensures
        r >= 0,
{
    match system_clock_ms() {
        Ok(ms) => epoch_ms_of(Some(ms)),
        Err(_) => epoch_ms_of(None),
    }
}

/// A file needs no re-extraction: its stored content hash equals the
/// BLAKE3 fingerprint of the bytes just read.
pub fn content_unchanged(stored_hash: &Option<String>, bytes: &[u8]) -> (b: bool)
    ensures
        b == (stored_hash matches Some(h) && h@ == crate::lockfiles::fingerprint(bytes@)),
{
    match stored_hash {
        Some(h) => {
            let fresh = crate::lockfiles::blake3_hex(bytes);
            crate::text::string_eq(h, &fresh)
        },
        None => false,
    }
}

/// A `schema_meta` value that does not parse.
#[derive(Debug, Clone, PartialEq, Eq)]
pub struct InvalidSchemaMetadata {
    pub key: String,
    pub value: String,
}

/// The stored index revision (`schema_meta.revision`), or the error
/// naming the key and the raw value.
pub fn revision_from_meta(value: String) -> (r: Result<u64, InvalidSchemaMetadata>)
    ensures
        match r {
            Ok(v) => crate::query::parse_unsigned(value@, u64::MAX as nat) == Some(v as nat),
            Err(e) => crate::query::parse_unsigned(value@, u64::MAX as nat) is None && e.key@ == "revision"@
                && e.value@ == value@,
        },
{
    match crate::query::parse_u64(value.as_str()) {
        Some(v) => Ok(v),
        None => Err(InvalidSchemaMetadata { key: "revision".to_string(), value }),
    }
}

} // verus!
