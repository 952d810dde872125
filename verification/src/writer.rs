//! The index writer's routing of ingest commands: which workspace a
//! write lands in, under which storage path, and whether the extracted
//! file must first be re-homed into a peer's namespace.
use vstd::prelude::*;
use crate::paths::Language;
use crate::peers::{peer_path, scoped_path};
use crate::query::{primary_workspace_id, primary_workspace_id_str};
use crate::text::str_chars;

verus! {

/// A write request sent to the index writer. `T` is the extracted file.
#[derive(Debug)]
pub enum IngestCommand<T> {
    UpsertFile { path: String, extracted: T },
    DeleteFile { path: String },
    RecordParseError { path: String, language: Language, detail: String },
    UpsertPeerFile { workspace_id: String, path: String, extracted: T },
    DeletePeerFile { workspace_id: String, path: String },
    RecordPeerParseError { workspace_id: String, path: String, language: Language, detail: String },
    /// Sent while a full re-scan owns the index.
    RescanFromScratch,
}

/// What the writer does for a command.
#[derive(Debug)]
pub enum WritePlan<T> {
    /// Upsert the extracted file into `workspace_id`; when `rehome` is
    /// set its embedded paths are first scoped into that workspace.
    Upsert { extracted: T, workspace_id: String, rehome: bool },
    /// Delete the file stored under this (already scoped) path.
    Delete { path: String },
    /// Record a parse error against this (already scoped) path.
    RecordParseError { path: String, language: Language, detail: String },
    /// Refused: a re-scan is in progress.
    RescanInProgress,
}

/// Routes a command: primary writes keep their paths and land in the
/// primary workspace; peer writes land in the peer's workspace with
/// their paths scoped (`ws:<id>:<path>`), and a peer upsert re-homes
/// the extracted file first.
pub fn plan_write<T>(cmd: IngestCommand<T>) -> (p: WritePlan<T>)
    ensures
        match cmd {
            IngestCommand::UpsertFile { path, extracted } => p matches WritePlan::Upsert {
                extracted: e,
                workspace_id: w,
                rehome,
            } && e == extracted && w@ == primary_workspace_id() && !rehome,
            IngestCommand::DeleteFile { path } => p matches WritePlan::Delete { path: q } && q == path,
            IngestCommand::RecordParseError { path, language, detail } => p matches WritePlan::RecordParseError {
                path: q,
                language: l,
                detail: d,
            } && q == path && l == language && d == detail,
            IngestCommand::UpsertPeerFile { workspace_id, path, extracted } => p matches WritePlan::Upsert {
                extracted: e,
                workspace_id: w,
                rehome,
            } && e == extracted && w == workspace_id && rehome,
            IngestCommand::DeletePeerFile { workspace_id, path } => p matches WritePlan::Delete { path: q }
                && q@ == scoped_path(workspace_id@, path@),
            IngestCommand::RecordPeerParseError { workspace_id, path, language, detail } => p matches WritePlan::RecordParseError {
                path: q,
                language: l,
                detail: d,
            } && q@ == scoped_path(workspace_id@, path@) && l == language && d == detail,
            IngestCommand::RescanFromScratch => p is RescanInProgress,
        },
{
    match cmd {
        IngestCommand::UpsertFile { path, extracted } => {
            let w = str_chars(primary_workspace_id_str());
            WritePlan::Upsert { extracted, workspace_id: crate::text::string_from_chars(w), rehome: false }
        },
        IngestCommand::DeleteFile { path } => WritePlan::Delete { path },
        IngestCommand::RecordParseError { path, language, detail } => WritePlan::RecordParseError {
            path,
            language,
            detail,
        },
        IngestCommand::UpsertPeerFile { workspace_id, path, extracted } => WritePlan::Upsert {
            extracted,
            workspace_id,
            rehome: true,
        },
        IngestCommand::DeletePeerFile { workspace_id, path } => WritePlan::Delete {
            path: peer_path(workspace_id.as_str(), path.as_str()),
        },
        IngestCommand::RecordPeerParseError { workspace_id, path, language, detail } => WritePlan::RecordParseError {
            path: peer_path(workspace_id.as_str(), path.as_str()),
            language,
            detail,
        },
        IngestCommand::RescanFromScratch => WritePlan::RescanInProgress,
    }
}

} // verus!
