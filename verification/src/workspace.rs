//! Errors of the cross-workspace catalog operations and their messages.
//!
//! A storage failure is carried as its rendered message: the catalog
//! itself lives behind the database layer.
use vstd::prelude::*;
use crate::text::{append_str, push_all, str_chars, string_from_chars};

verus! {

/// The pieces joined with `sep` between consecutive ones (`[String]::join`).
pub open spec fn join_text(ps: Seq<Seq<char>>, sep: Seq<char>) -> Seq<char>
    decreases ps.len(),
{
    if ps.len() == 0 {
        Seq::empty()
    } else if ps.len() == 1 {
        ps[0]
    } else {
        join_text(ps.drop_last(), sep) + sep + ps.last()
    }
}

pub open spec fn string_views(v: Seq<String>) -> Seq<Seq<char>> {
    v.map_values(|s: String| s@)
}

/// Joins `parts` with `sep` (`[String]::join`).
pub fn join_strings(parts: &[String], sep: &str) -> (out: Vec<char>)
    ensures
        out@ == join_text(string_views(parts@), sep@),
{
    let ghost ps = string_views(parts@);
    let mut out: Vec<char> = Vec::new();
    let mut i: usize = 0;
    assert(ps.take(0) =~= Seq::<Seq<char>>::empty());
    while i < parts.len()
        invariant
            i <= parts.len(),
            ps == string_views(parts@),
            out@ == join_text(ps.take(i as int), sep@),
        decreases parts.len() - i,
    {
        assert(ps.take(i + 1).drop_last() =~= ps.take(i as int));
        assert(ps.take(i + 1).last() == parts@[i as int]@);
        if i > 0 {
            append_str(&mut out, sep);
        } else {
            assert(ps.take(1) =~= seq![parts@[0]@]);
        }
        append_str(&mut out, parts[i].as_str());
        i += 1;
    }
    assert(ps.take(parts.len() as int) =~= ps);
    out
}

/// Why a workspace could not be linked. `PathNotFound` carries the
/// did-you-mean suggestions computed from sibling directories.
#[derive(Debug)]
pub enum LinkWorkspaceError {
    PathNotFound { input: String, suggestions: Vec<String> },
    Storage(String),
}

impl LinkWorkspaceError {
    pub open spec fn spec_message(&self) -> Seq<char> {
        match self {
            LinkWorkspaceError::PathNotFound { input, suggestions } => if suggestions@.len() == 0 {
                "path not found: "@ + input@
            } else {
                "path not found: "@ + input@ + " (did you mean: "@ + join_text(
                    string_views(suggestions@),
                    ", "@,
                ) + ")"@
            },
            LinkWorkspaceError::Storage(e) => e@,
        }
    }

    /// The error as shown to users.
    pub fn message(&self) -> (m: String)
        ensures
            m@ == self.spec_message(),
    {
        match self {
            LinkWorkspaceError::PathNotFound { input, suggestions } => {
                let mut out: Vec<char> = Vec::new();
                append_str(&mut out, "path not found: ");
                append_str(&mut out, input.as_str());
                if suggestions.len() > 0 {
                    append_str(&mut out, " (did you mean: ");
                    let joined = join_strings(suggestions.as_slice(), ", ");
                    push_all(&mut out, &joined);
                    append_str(&mut out, ")");
                }
                string_from_chars(out)
            },
            LinkWorkspaceError::Storage(e) => e.clone(),
        }
    }
}

/// Why a peer's link direction could not be changed.
#[derive(Debug)]
pub enum SetLinkDirectionError {
    NotFound(String),
    Storage(String),
}

impl SetLinkDirectionError {
    pub open spec fn spec_message(&self) -> Seq<char> {
        match self {
            SetLinkDirectionError::NotFound(id) => "workspace_id not found: "@ + id@,
            SetLinkDirectionError::Storage(e) => "storage: "@ + e@,
        }
    }

    /// The error as shown to users.
    pub fn message(&self) -> (m: String)
        ensures
            m@ == self.spec_message(),
    {
        let mut out: Vec<char> = Vec::new();
        match self {
            SetLinkDirectionError::NotFound(id) => {
                append_str(&mut out, "workspace_id not found: ");
                append_str(&mut out, id.as_str());
            },
            SetLinkDirectionError::Storage(e) => {
                append_str(&mut out, "storage: ");
                append_str(&mut out, e.as_str());
            },
        }
        string_from_chars(out)
    }
}

/// Why a peer could not be re-extracted.
#[derive(Debug)]
pub enum RefreshPeerError {
    NotFound(String),
    Storage(String),
    Extract(String),
}

impl RefreshPeerError {
    pub open spec fn spec_message(&self) -> Seq<char> {
        match self {
            RefreshPeerError::NotFound(id) => "workspace_id not found: "@ + id@,
            RefreshPeerError::Storage(e) => "storage: "@ + e@,
            RefreshPeerError::Extract(e) => "extract: "@ + e@,
        }
    }

    /// The error as shown to users.
    pub fn message(&self) -> (m: String)
        ensures
            m@ == self.spec_message(),
    {
        let mut out: Vec<char> = Vec::new();
        match self {
            RefreshPeerError::NotFound(id) => {
                append_str(&mut out, "workspace_id not found: ");
                append_str(&mut out, id.as_str());
            },
            RefreshPeerError::Storage(e) => {
                append_str(&mut out, "storage: ");
                append_str(&mut out, e.as_str());
            },
            RefreshPeerError::Extract(e) => {
                append_str(&mut out, "extract: ");
                append_str(&mut out, e.as_str());
            },
        }
        string_from_chars(out)
    }
}

/// The workspace id a catalog call addresses: the given one, or the
/// primary workspace when the caller omits it.
pub fn workspace_or_primary(workspace_id: Option<&str>) -> (w: &str)
    ensures
        w@ == match workspace_id {
            Some(id) => id@,
            None => crate::query::primary_workspace_id(),
        },
{
    match workspace_id {
        Some(id) => id,
        None => crate::query::primary_workspace_id_str(),
    }
}

} // verus!
