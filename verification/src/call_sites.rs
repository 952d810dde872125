//! Filters and query text for the `call_sites` table.
use vstd::prelude::*;
use crate::text::{append_str, string_from_chars};

verus! {

/// Filter trio of a call-site search. Each `Some` field narrows the
/// result (the three compose with AND); `None` leaves that axis open.
#[derive(Debug, Default, Clone, PartialEq, Eq)]
pub struct CallSiteFilters {
    /// Exact enclosing function FQDN.
    pub from_fqdn: Option<String>,
    /// Exact callee text.
    pub callee_text: Option<String>,
    /// SQLite GLOB over the callee text.
    pub callee_pattern: Option<String>,
}

/// Largest number of call sites one search returns.
pub const FIND_CALL_SITES_MAX_LIMIT: u32 = 200;

/// Number of call sites returned when the caller gives no limit.
pub const FIND_CALL_SITES_DEFAULT_LIMIT: u32 = 50;

impl CallSiteFilters {
    /// No axis is filtered.
    pub fn is_empty(&self) -> (b: bool)
        ensures
            b == (self.from_fqdn is None && self.callee_text is None && self.callee_pattern is None),
    {
        self.from_fqdn.is_none() && self.callee_text.is_none() && self.callee_pattern.is_none()
    }
}

/// The row cap actually used: `None` for a zero limit (the search returns
/// nothing without querying), else the limit clamped to the maximum.
pub fn effective_call_site_limit(limit: u32) -> (r: Option<u32>)
    ensures
        limit == 0 ==> r is None,
        limit > 0 ==> r == Some(if limit < FIND_CALL_SITES_MAX_LIMIT {
            limit
        } else {
            FIND_CALL_SITES_MAX_LIMIT
        }),
{
    if limit == 0 {
        None
    } else if limit < FIND_CALL_SITES_MAX_LIMIT {
        Some(limit)
    } else {
        Some(FIND_CALL_SITES_MAX_LIMIT)
    }
}

pub open spec fn opt_clause(o: Option<String>, clause: Seq<char>) -> Seq<char> {
    if o is Some {
        clause
    } else {
        Seq::empty()
    }
}

pub open spec fn opt_param(o: Option<String>) -> Seq<Seq<char>> {
    match o {
        Some(v) => seq![v@],
        None => Seq::empty(),
    }
}

/// The fixed start of a call-site search, before the filter clauses.
pub open spec fn call_sites_base() -> Seq<char> {
    "SELECT from_fqdn, callee_text, args_json, receiver_chain_json, file_path, line, col FROM call_sites WHERE 1=1"@
}

/// The SQL text of a call-site search: one placeholder per set filter,
/// in field order, then the ordering and the limit placeholder.
pub open spec fn call_sites_sql(f: CallSiteFilters) -> Seq<char> {
    call_sites_base() + opt_clause(f.from_fqdn, " AND from_fqdn = ?"@) + opt_clause(
        f.callee_text,
        " AND callee_text = ?"@,
    ) + opt_clause(f.callee_pattern, " AND callee_text GLOB ?"@) + " ORDER BY id ASC LIMIT ?"@
}

/// The text parameters bound to the placeholders, in order (the limit
/// is bound after them).
pub open spec fn call_sites_params(f: CallSiteFilters) -> Seq<Seq<char>> {
    opt_param(f.from_fqdn) + opt_param(f.callee_text) + opt_param(f.callee_pattern)
}

/// Builds the SQL text and the text parameters of a call-site search.
pub fn call_sites_query(filters: &CallSiteFilters) -> (r: (String, Vec<String>))
    ensures
        r.0@ == call_sites_sql(*filters),
        crate::workspace::string_views(r.1@) == call_sites_params(*filters),
{
    let mut sql: Vec<char> = Vec::new();
    let mut params: Vec<String> = Vec::new();
    append_str(
        &mut sql,
        "SELECT from_fqdn, callee_text, args_json, receiver_chain_json, file_path, line, col FROM call_sites WHERE 1=1",
    );
    match &filters.from_fqdn {
        Some(v) => {
            append_str(&mut sql, " AND from_fqdn = ?");
            params.push(v.clone());
        },
        None => {},
    }
    let ghost p1 = crate::workspace::string_views(params@);
    match &filters.callee_text {
        Some(v) => {
            append_str(&mut sql, " AND callee_text = ?");
            params.push(v.clone());
            assert(crate::workspace::string_views(params@) =~= p1.push(v@));
        },
        None => {},
    }
    let ghost p2 = crate::workspace::string_views(params@);
    match &filters.callee_pattern {
        Some(v) => {
            append_str(&mut sql, " AND callee_text GLOB ?");
            params.push(v.clone());
            assert(crate::workspace::string_views(params@) =~= p2.push(v@));
        },
        None => {},
    }
    append_str(&mut sql, " ORDER BY id ASC LIMIT ?");
    assert(crate::workspace::string_views(params@) =~= call_sites_params(*filters));
    (string_from_chars(sql), params)
}

/// The receiver chain of a stored call site, decoded from its JSON
/// array column; the decoder's error text when it does not decode.
pub fn receiver_chain_of(raw: &str) -> (r: Result<Vec<String>, String>)
    ensures
        match crate::rows::json_string_array(raw@) {
            Ok(d) => r matches Ok(v) && crate::workspace::string_views(v@) == d,
            Err(m) => r matches Err(e) && e@ == m,
        },
{
    crate::rows::json_string_list(raw)
}

// ---------------------------------------------------------------------
// Placeholders and their parameters
// ---------------------------------------------------------------------

/// Number of `?` placeholders in `s` from position `i` on.
pub open spec fn placeholders_from(s: Seq<char>, i: int) -> nat
    decreases s.len() - i,
{
    if i < 0 || i >= s.len() {
        0
    } else {
        placeholders_from(s, i + 1) + if s[i] == '?' { 1nat } else { 0nat }
    }
}

/// Number of `?` placeholders in `s`.
pub open spec fn placeholders(s: Seq<char>) -> nat {
    placeholders_from(s, 0)
}

/// `clause` stands in `s` at position `p`.
pub open spec fn clause_at(s: Seq<char>, p: int, clause: Seq<char>) -> bool {
    0 <= p && p + clause.len() <= s.len() && s.subrange(p, p + clause.len()) == clause
}

/// The filter part of a search's SQL: what follows the fixed base.
pub open spec fn filter_part(sql: Seq<char>) -> Seq<char> {
    sql.skip(call_sites_base().len() as int)
}

proof fn lemma_placeholders_shift(a: Seq<char>, b: Seq<char>, i: int)
    requires
        a.len() <= i,
    ensures
        placeholders_from(a + b, i) == placeholders_from(b, i - a.len()),
    decreases (a + b).len() - i,
{
    if i < (a + b).len() {
        lemma_placeholders_shift(a, b, i + 1);
        assert((a + b)[i] == b[i - a.len()]);
    }
}

proof fn lemma_placeholders_concat_from(a: Seq<char>, b: Seq<char>, i: int)
    requires
        0 <= i <= a.len(),
    ensures
        placeholders_from(a + b, i) == placeholders_from(a, i) + placeholders(b),
    decreases a.len() - i,
{
    if i == a.len() {
        lemma_placeholders_shift(a, b, i);
    } else {
        lemma_placeholders_concat_from(a, b, i + 1);
        assert((a + b)[i] == a[i]);
    }
}

proof fn lemma_placeholders_concat(a: Seq<char>, b: Seq<char>)
    ensures
        placeholders(a + b) == placeholders(a) + placeholders(b),
{
    lemma_placeholders_concat_from(a, b, 0);
}

proof fn lemma_clause_placeholders(o: Option<String>, clause: Seq<char>)
    requires
        placeholders(clause) == 1,
    ensures
        placeholders(opt_clause(o, clause)) == opt_param(o).len(),
{
    if o is None {
        assert(placeholders(opt_clause(o, clause)) == 0);
    }
}

/// Each text parameter binds the placeholder of its own filter: in the
/// filter part of the SQL, the clause of every set filter stands at a
/// position before which exactly `k` placeholders occur, and parameter
/// `k` is that filter's value. The filter part holds one placeholder per
/// parameter plus the final limit placeholder.
pub proof fn lemma_call_site_params_bind_placeholders(f: CallSiteFilters)
    ensures
        call_sites_sql(f).take(call_sites_base().len() as int) == call_sites_base(),
        placeholders(filter_part(call_sites_sql(f))) == call_sites_params(f).len() + 1,
        filter_part(call_sites_sql(f)).last() == '?',
        f.from_fqdn matches Some(v) ==> exists|p: int| clause_at(filter_part(call_sites_sql(f)), p, " AND from_fqdn = ?"@)
            && call_sites_params(f)[placeholders(#[trigger] filter_part(call_sites_sql(f)).take(p)) as int] == v@,
        f.callee_text matches Some(v) ==> exists|p: int| clause_at(filter_part(call_sites_sql(f)), p, " AND callee_text = ?"@)
            && call_sites_params(f)[placeholders(#[trigger] filter_part(call_sites_sql(f)).take(p)) as int] == v@,
        f.callee_pattern matches Some(v) ==> exists|p: int| clause_at(filter_part(call_sites_sql(f)), p, " AND callee_text GLOB ?"@)
            && call_sites_params(f)[placeholders(#[trigger] filter_part(call_sites_sql(f)).take(p)) as int] == v@,
{
    let base = call_sites_base();
    let c_from = " AND from_fqdn = ?"@;
    let c_text = " AND callee_text = ?"@;
    let c_glob = " AND callee_text GLOB ?"@;
    let c_limit = " ORDER BY id ASC LIMIT ?"@;
    reveal_strlit(" AND from_fqdn = ?");
    reveal_strlit(" AND callee_text = ?");
    reveal_strlit(" AND callee_text GLOB ?");
    reveal_strlit(" ORDER BY id ASC LIMIT ?");
    reveal_with_fuel(placeholders_from, 30);
    assert(placeholders(c_from) == 1);
    assert(placeholders(c_text) == 1);
    assert(placeholders(c_glob) == 1);
    assert(placeholders(c_limit) == 1);
    let a = opt_clause(f.from_fqdn, c_from);
    let b = opt_clause(f.callee_text, c_text);
    let c = opt_clause(f.callee_pattern, c_glob);
    let sql = call_sites_sql(f);
    let t = filter_part(sql);
    assert(sql == base + a + b + c + c_limit);
    assert(sql.take(base.len() as int) =~= base);
    assert(t =~= a + b + c + c_limit);
    lemma_clause_placeholders(f.from_fqdn, c_from);
    lemma_clause_placeholders(f.callee_text, c_text);
    lemma_clause_placeholders(f.callee_pattern, c_glob);
    lemma_placeholders_concat(a, b);
    lemma_placeholders_concat(a + b, c);
    lemma_placeholders_concat(a + b + c, c_limit);
    let ps = call_sites_params(f);
    let pa = opt_param(f.from_fqdn);
    let pb = opt_param(f.callee_text);
    let pc = opt_param(f.callee_pattern);
    assert(ps == pa + pb + pc);
    assert(t.last() == c_limit.last());
    if let Some(v) = f.from_fqdn {
        assert(t.take(0) =~= Seq::<char>::empty());
        assert(placeholders(t.take(0)) == 0);
        assert(t.subrange(0, c_from.len() as int) =~= c_from);
        assert(ps[0] == v@);
        assert(clause_at(t, 0, c_from));
    }
    if let Some(v) = f.callee_text {
        let p = a.len() as int;
        assert(t.take(p) =~= a);
        assert(t.subrange(p, p + c_text.len()) =~= c_text);
        assert(ps[pa.len() as int] == v@);
        assert(clause_at(t, p, c_text));
    }
    if let Some(v) = f.callee_pattern {
        let p = (a.len() + b.len()) as int;
        assert(t.take(p) =~= a + b);
        assert(t.subrange(p, p + c_glob.len()) =~= c_glob);
        assert(ps[(pa.len() + pb.len()) as int] == v@);
        assert(clause_at(t, p, c_glob));
    }
}

} // verus!
