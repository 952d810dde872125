//! What a language provider is handed and how it can fail.
use vstd::prelude::*;
use crate::text::{append_str, string_from_chars};

verus! {

/// Context handed to a language provider for one file.
#[derive(Debug, Clone, Copy)]
pub struct ExtractContext<'a> {
    /// Root of the workspace the file belongs to.
    pub workspace_root: &'a str,
}

/// Why a provider could not extract a file.
#[derive(Debug)]
pub enum ExtractError {
    Parse { file: String, detail: String },
    Io(String),
    UnsupportedLanguage { file: String },
}

impl ExtractError {
    pub open spec fn spec_message(&self) -> Seq<char> {
        match self {
            ExtractError::Parse { file, detail } => "parse error in "@ + file@ + ": "@ + detail@,
            ExtractError::Io(e) => "io error: "@ + e@,
            ExtractError::UnsupportedLanguage { file } => "unsupported language for "@ + file@,
        }
    }

    /// The error as shown to users.
    pub fn message(&self) -> (m: String)
        ensures
            m@ == self.spec_message(),
    {
        let mut out: Vec<char> = Vec::new();
        match self {
            ExtractError::Parse { file, detail } => {
                append_str(&mut out, "parse error in ");
                append_str(&mut out, file.as_str());
                append_str(&mut out, ": ");
                append_str(&mut out, detail.as_str());
            },
            ExtractError::Io(e) => {
                append_str(&mut out, "io error: ");
                append_str(&mut out, e.as_str());
            },
            ExtractError::UnsupportedLanguage { file } => {
                append_str(&mut out, "unsupported language for ");
                append_str(&mut out, file.as_str());
            },
        }
        string_from_chars(out)
    }
}

} // verus!
