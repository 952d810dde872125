//! Manifest-file recognition: which file names trigger a workspace
//! project re-detection when they change on disk.
use vstd::prelude::*;
use crate::paths::{extension, extension_of, file_name, file_name_of};
use crate::text::{eq_lit, str_chars};

verus! {

/// Exact manifest file names (project / workspace markers of every
/// supported ecosystem).
pub open spec fn is_manifest_name(n: Seq<char>) -> bool {
    ||| n == "Cargo.toml"@
    ||| n == "package.json"@
    ||| n == "pnpm-workspace.yaml"@
    ||| n == "bun.lock"@
    ||| n == "bun.lockb"@
    ||| n == "bunfig.toml"@
    ||| n == "deno.json"@
    ||| n == "deno.jsonc"@
    ||| n == "go.work"@
    ||| n == "lerna.json"@
    ||| n == "nx.json"@
    ||| n == "turbo.json"@
    ||| n == "pyproject.toml"@
    ||| n == "requirements.txt"@
    ||| n == "setup.py"@
    ||| n == "setup.cfg"@
    ||| n == ".luarc.json"@
}

/// Manifest extensions with variable base names (`*.sxb`).
pub open spec fn is_manifest_ext(e: Seq<char>) -> bool {
    e == "sxb"@
}

pub open spec fn manifest_path(p: Seq<char>) -> bool {
    ||| (file_name(p) matches Some(n) && is_manifest_name(n))
    ||| (extension(p) matches Some(e) && is_manifest_ext(e))
}

fn manifest_name(n: &[char]) -> (b: bool)
    ensures
        b == is_manifest_name(n@),
{
    eq_lit(n, "Cargo.toml") || eq_lit(n, "package.json") || eq_lit(n, "pnpm-workspace.yaml")
        || eq_lit(n, "bun.lock") || eq_lit(n, "bun.lockb") || eq_lit(n, "bunfig.toml")
        || eq_lit(n, "deno.json") || eq_lit(n, "deno.jsonc") || eq_lit(n, "go.work")
        || eq_lit(n, "lerna.json") || eq_lit(n, "nx.json") || eq_lit(n, "turbo.json")
        || eq_lit(n, "pyproject.toml") || eq_lit(n, "requirements.txt") || eq_lit(n, "setup.py")
        || eq_lit(n, "setup.cfg") || eq_lit(n, ".luarc.json")
}

/// `true` when the path's file name is a known manifest name or its
/// extension is a manifest extension. Case-sensitive; pure name
/// inspection (no I/O).
pub fn is_manifest_file(path: &str) -> (b: bool)
    ensures
        b == manifest_path(path@),
{
    let p = str_chars(path);
    if let Some(n) = file_name_of(&p) {
        if manifest_name(&n) {
            return true;
        }
    }
    if let Some(e) = extension_of(&p) {
        if eq_lit(&e, "sxb") {
            return true;
        }
    }
    false
}

} // verus!
