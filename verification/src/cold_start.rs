//! Cold-start bookkeeping: which walk entries are candidates, how the
//! candidates are processed in chunks with a progress counter, and which
//! stored files disappeared.
use vstd::prelude::*;
use crate::ingest::{decimal, decimal_text};
use crate::text::{append_str, push_all, str_chars, string_from_chars};
use crate::workspace::string_views;

verus! {

/// Candidates are processed and committed this many at a time.
pub const SUB_BATCH_SIZE: usize = 100;

/// Why a scan stopped.
#[derive(Debug)]
pub enum ColdStartError {
    Storage(String),
    Io(String),
    Walk(String),
}

impl ColdStartError {
    pub open spec fn spec_message(&self) -> Seq<char> {
        match self {
            ColdStartError::Storage(e) => "storage: "@ + e@,
            ColdStartError::Io(e) => "io: "@ + e@,
            ColdStartError::Walk(e) => "walk: "@ + e@,
        }
    }

    pub fn message(&self) -> (m: String)
        ensures
            m@ == self.spec_message(),
    {
        let mut out: Vec<char> = Vec::new();
        match self {
            ColdStartError::Storage(e) => {
                append_str(&mut out, "storage: ");
                append_str(&mut out, e.as_str());
            },
            ColdStartError::Io(e) => {
                append_str(&mut out, "io: ");
                append_str(&mut out, e.as_str());
            },
            ColdStartError::Walk(e) => {
                append_str(&mut out, "walk: ");
                append_str(&mut out, e.as_str());
            },
        }
        string_from_chars(out)
    }
}

/// A walked file is a candidate when it has a supported extension, lies
/// under the root, and the filters do not skip its relative path.
pub fn is_candidate(abs_path: &str, workspace_root: &str, is_file: bool, skipped: bool) -> (b: bool)
    ensures
        b == (is_file && crate::paths::is_supported_path(abs_path@) && crate::paths::relative_form(
            crate::paths::path_strip_prefix(abs_path@, workspace_root@),
        ) is Some && !skipped),
{
    if !is_file || !crate::paths::has_supported_extension(abs_path) {
        return false;
    }
    match crate::paths::to_workspace_relative(abs_path, workspace_root) {
        None => false,
        Some(_) => !skipped,
    }
}

/// A directory below the root is not descended into when the filters
/// skip its relative path.
pub fn is_dir_excluded(abs_path: &str, workspace_root: &str, depth: usize, is_dir: bool, skipped: bool) -> (b: bool)
    ensures
        b == (depth > 0 && is_dir && crate::paths::relative_form(
            crate::paths::path_strip_prefix(abs_path@, workspace_root@),
        ) is Some && skipped),
{
    if depth == 0 || !is_dir {
        return false;
    }
    match crate::paths::to_workspace_relative(abs_path, workspace_root) {
        None => false,
        Some(_) => skipped,
    }
}

/// `<done>/<total>`: the stored progress of a scan.
pub fn progress_text(done: u64, total: u64) -> (s: String)
    ensures
        s@ == decimal(done as nat) + "/"@ + decimal(total as nat),
{
    let mut out = decimal_text(done as u128);
    append_str(&mut out, "/");
    let t = decimal_text(total as u128);
    push_all(&mut out, &t);
    string_from_chars(out)
}

/// Chunked walk over the candidates with its progress counter.
pub struct ScanProgress {
    total: usize,
    next: usize,
}

impl ScanProgress {
    pub closed spec fn total(&self) -> nat {
        self.total as nat
    }

    pub closed spec fn done(&self) -> nat {
        self.next as nat
    }

    pub open spec fn well_formed(&self) -> bool {
        self.done() <= self.total()
    }

    pub fn new(total: usize) -> (p: Self)
        ensures
            p.well_formed(),
            p.total() == total,
            p.done() == 0,
    {
        ScanProgress { total, next: 0 }
    }

    /// The next chunk `[start, end)`, at most [`SUB_BATCH_SIZE`] long, or
    /// `None` when every candidate was processed. Taking it counts it done.
    pub fn next_chunk(&mut self) -> (r: Option<(usize, usize)>)
        requires
            old(self).well_formed(),
        ensures
            final(self).well_formed(),
            final(self).total() == old(self).total(),
            r is None <==> old(self).done() == old(self).total(),
            r is None ==> final(self).done() == old(self).done(),
            r matches Some((s, e)) ==> s == old(self).done() && e == final(self).done() && s < e && e - s
                <= SUB_BATCH_SIZE && (e - s == SUB_BATCH_SIZE || e == old(self).total()),
    {
        if self.next >= self.total {
            return None;
        }
        let start = self.next;
        let end = if self.total - start > SUB_BATCH_SIZE {
            start + SUB_BATCH_SIZE
        } else {
            self.total
        };
        self.next = end;
        Some((start, end))
    }

    /// `(done, total)` as stored (`u64`).
    pub fn counters(&self) -> (r: (u64, u64))
        ensures
            r.0 == self.done(),
            r.1 == self.total(),
    {
        (self.next as u64, self.total as u64)
    }
}

/// The stored workspace files the walk did not see (external rows are
/// never removed this way).
pub open spec fn unseen(stored: Seq<(Seq<char>, bool)>, seen: Seq<Seq<char>>) -> Seq<Seq<char>>
    decreases stored.len(),
{
    if stored.len() == 0 {
        Seq::empty()
    } else {
        let init = unseen(stored.drop_last(), seen);
        let f = stored.last();
        if !f.1 && !seen.contains(f.0) {
            init.push(f.0)
        } else {
            init
        }
    }
}

pub open spec fn stored_views(s: Seq<(String, bool)>) -> Seq<(Seq<char>, bool)> {
    s.map_values(|x: (String, bool)| (x.0@, x.1))
}

fn seen_contains(seen: &[String], p: &String) -> (b: bool)
    ensures
        b == string_views(seen@).contains(p@),
{
    let mut i: usize = 0;
    while i < seen.len()
        invariant
            i <= seen.len(),
            forall|k: int| 0 <= k < i ==> string_views(seen@)[k] != p@,
        decreases seen.len() - i,
    {
        if crate::text::string_eq(&seen[i], p) {
            assert(string_views(seen@)[i as int] == p@);
            return true;
        }
        i += 1;
    }
    false
}

/// Stored non-external file paths absent from the walk, in stored order.
pub fn unseen_paths(stored: &[(String, bool)], seen: &[String]) -> (v: Vec<String>)
    ensures
        string_views(v@) == unseen(stored_views(stored@), string_views(seen@)),
{
    let ghost sv = stored_views(stored@);
    let mut v: Vec<String> = Vec::new();
    let mut i: usize = 0;
    assert(sv.take(0) =~= Seq::<(Seq<char>, bool)>::empty());
    while i < stored.len()
        invariant
            i <= stored.len(),
            sv == stored_views(stored@),
            string_views(v@) == unseen(sv.take(i as int), string_views(seen@)),
        decreases stored.len() - i,
    {
        let f = &stored[i];
        assert(sv.take(i + 1).drop_last() =~= sv.take(i as int));
        assert(sv.take(i + 1).last() == (f.0@, f.1));
        if !f.1 && !seen_contains(seen, &f.0) {
            let ghost before = string_views(v@);
            v.push(f.0.clone());
            assert(string_views(v@) =~= before.push(f.0@));
        }
        i += 1;
    }
    assert(sv.take(stored.len() as int) =~= sv);
    v
}

/// A path is removed exactly when it is a stored workspace file the walk
/// did not see.
pub proof fn lemma_unseen_exact(stored: Seq<(Seq<char>, bool)>, seen: Seq<Seq<char>>, p: Seq<char>)
    ensures
        unseen(stored, seen).contains(p) <==> (!seen.contains(p) && exists|k: int| 0 <= k < stored.len()
            && (#[trigger] stored[k]).0 == p && !stored[k].1),
    decreases stored.len(),
{
    if stored.len() > 0 {
        let init = stored.drop_last();
        lemma_unseen_exact(init, seen, p);
        let u0 = unseen(init, seen);
        let f = stored.last();
        assert(stored[stored.len() - 1] == f);
        if unseen(stored, seen).contains(p) {
            let u = unseen(stored, seen);
            let m = choose|m: int| 0 <= m < u.len() && u[m] == p;
            if m < u0.len() {
                assert(u[m] == u0[m]);
                assert(u0.contains(p));
                let k = choose|k: int| 0 <= k < init.len() && (#[trigger] init[k]).0 == p && !init[k].1;
                assert(stored[k] == init[k]);
            }
        }
        if !seen.contains(p) && exists|k: int| 0 <= k < stored.len() && (#[trigger] stored[k]).0 == p && !stored[k].1 {
            let k = choose|k: int| 0 <= k < stored.len() && (#[trigger] stored[k]).0 == p && !stored[k].1;
            if k < init.len() {
                assert(init[k] == stored[k]);
                assert(u0.contains(p));
                let m = choose|m: int| 0 <= m < u0.len() && u0[m] == p;
                if !f.1 && !seen.contains(f.0) {
                    assert(u0.push(f.0)[m] == p);
                }
            } else {
                assert(u0.push(f.0)[u0.len() as int] == p);
            }
        }
    }
}

} // verus!
