use standardoc_core::manifest::is_manifest_file;
use standardoc_core::paths::{
    guess_language, has_supported_extension, to_workspace_relative, Language,
};

#[test]
fn has_supported_extension_filters_extensions() {
    assert!(has_supported_extension("a.rs"));
    assert!(has_supported_extension("a.ts"));
    assert!(has_supported_extension("a.tsx"));
    assert!(has_supported_extension("a.js"));
    assert!(has_supported_extension("a.jsx"));
    assert!(has_supported_extension("a.lua"));
    assert!(has_supported_extension("App.vue"));
    assert!(has_supported_extension("Counter.svelte"));
    assert!(has_supported_extension("vm.c"));
    assert!(has_supported_extension("lur.h"));
    assert!(!has_supported_extension("a.py"));
    assert!(!has_supported_extension("Makefile"));
}

#[test]
fn to_workspace_relative_strips_prefix() {
    assert_eq!(
        to_workspace_relative("/ws/src/lib.rs", "/ws"),
        Some("src/lib.rs".into())
    );
}

#[test]
fn to_workspace_relative_outside_root_is_none() {
    assert_eq!(to_workspace_relative("/other/lib.rs", "/ws"), None);
}

#[test]
fn to_workspace_relative_root_itself_is_none() {
    assert_eq!(to_workspace_relative("/ws", "/ws"), None);
}

#[test]
fn to_workspace_relative_is_component_wise() {
    assert_eq!(to_workspace_relative("/wsx/lib.rs", "/ws"), None);
    assert_eq!(
        to_workspace_relative("/ws/a/b.rs", "/ws/"),
        Some("a/b.rs".into())
    );
}

#[test]
fn guess_language_maps_known_extensions() {
    assert_eq!(guess_language("a.rs"), Some(Language::Rust));
    assert_eq!(guess_language("a.ts"), Some(Language::TypeScript));
    assert_eq!(guess_language("a.tsx"), Some(Language::TypeScript));
    assert_eq!(guess_language("a.js"), Some(Language::JavaScript));
    assert_eq!(guess_language("a.jsx"), Some(Language::JavaScript));
    assert_eq!(guess_language("a.lua"), Some(Language::Lua));
    assert_eq!(guess_language("App.vue"), Some(Language::Vue));
    assert_eq!(guess_language("Counter.svelte"), Some(Language::Svelte));
    assert_eq!(guess_language("runtime/vm.c"), Some(Language::C));
    assert_eq!(guess_language("include/lur.h"), Some(Language::C));
    assert_eq!(guess_language("a.py"), None);
    assert_eq!(guess_language("README"), None);
}

#[test]
fn guess_language_uses_text_after_last_dot_of_whole_path() {
    assert_eq!(guess_language("dir.rs/README"), None);
    assert_eq!(guess_language(".rs"), Some(Language::Rust));
}

#[test]
fn is_manifest_file_matches_one_filename_per_ecosystem() {
    assert!(is_manifest_file("/ws/Cargo.toml"));
    assert!(is_manifest_file("/ws/package.json"));
    assert!(is_manifest_file("/ws/pnpm-workspace.yaml"));
    assert!(is_manifest_file("/ws/bun.lock"));
    assert!(is_manifest_file("/ws/deno.json"));
    assert!(is_manifest_file("/ws/go.work"));
    assert!(is_manifest_file("/ws/turbo.json"));
    assert!(is_manifest_file("/ws/pyproject.toml"));
    assert!(is_manifest_file("/ws/.luarc.json"));
}

#[test]
fn is_manifest_file_matches_sxb_extension() {
    assert!(is_manifest_file("/ws/standardoc.sxb"));
    assert!(is_manifest_file("/ws/sub/nested.sxb"));
}

#[test]
fn is_manifest_file_rejects_source_files() {
    assert!(!is_manifest_file("/ws/src/lib.rs"));
    assert!(!is_manifest_file("/ws/src/index.ts"));
    assert!(!is_manifest_file("/ws/src/main.lua"));
    assert!(!is_manifest_file("/ws/App.vue"));
}

#[test]
fn is_manifest_file_rejects_lockfiles() {
    assert!(!is_manifest_file("/ws/Cargo.lock"));
    assert!(!is_manifest_file("/ws/package-lock.json"));
    assert!(!is_manifest_file("/ws/yarn.lock"));
    assert!(!is_manifest_file("/ws/pnpm-lock.yaml"));
}

#[test]
fn is_manifest_file_is_case_sensitive() {
    assert!(!is_manifest_file("/ws/CARGO.TOML"));
    assert!(!is_manifest_file("/ws/Package.json"));
}

#[test]
fn is_manifest_file_handles_trailing_separators_and_dots() {
    assert!(is_manifest_file("/ws/Cargo.toml/"));
    assert!(is_manifest_file("/ws/Cargo.toml/."));
    assert!(!is_manifest_file("/ws/.."));
    assert!(!is_manifest_file("/"));
    assert!(!is_manifest_file("/ws/.sxb"));
}
