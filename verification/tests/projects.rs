use standardoc_core::projects::{primary_workspace_kind, DetectedWorkspace, WorkspaceKind};
use standardoc_core::lookup::{CoreSymbolLookup, SymbolRef};
use standardoc_core::projects::{
    from_kind_id, graph_project, normalise_rel_path, owning_project, project_rows,
    DetectedProject, ProjectKind,
};
use standardoc_core::similarity::{token_overlap, tokenize};

#[test]
fn normalise_rel_path_handles_root_and_dot_prefix() {
    assert_eq!(normalise_rel_path("."), "");
    assert_eq!(normalise_rel_path("./crates/foo"), "crates/foo");
    assert_eq!(normalise_rel_path("crates/foo"), "crates/foo");
}

#[test]
fn from_kind_id_maps_builtins_and_custom() {
    assert_eq!(from_kind_id("rust"), ProjectKind::Rust);
    assert_eq!(from_kind_id("cpp"), ProjectKind::Cpp);
    assert_eq!(from_kind_id("unknown"), ProjectKind::Unknown);
    assert_eq!(from_kind_id("wgsl"), ProjectKind::Custom("wgsl".into()));
    assert_eq!(ProjectKind::Custom("wgsl".into()).tag(), "custom:wgsl");
    assert_eq!(ProjectKind::Bun.tag(), "bun");
}

#[test]
fn project_rows_drop_unknown_and_normalise() {
    let ds = vec![
        DetectedProject { label: "root".into(), kind: "rust".into(), absolute_path: "/r".into(), rel_path: ".".into() },
        DetectedProject { label: "src".into(), kind: "unknown".into(), absolute_path: "/r/src".into(), rel_path: "./src".into() },
        DetectedProject { label: "ext".into(), kind: "bun".into(), absolute_path: "/r/ext".into(), rel_path: "./ext/vscode".into() },
    ];
    let rows = project_rows(&ds);
    assert_eq!(rows.len(), 2);
    assert_eq!(rows[0].rel_path, "");
    assert_eq!(rows[0].kind, ProjectKind::Rust);
    assert_eq!(rows[1].rel_path, "ext/vscode");
    assert_eq!(rows[1].root_path, "/r/ext");
    let g = graph_project(7, "ext".into(), &rows[1].kind, rows[1].rel_path.clone());
    assert_eq!(g.kind, "bun");
    assert_eq!(g.project_id, 7);
}

#[test]
fn owning_project_picks_deepest_cover() {
    let projects = vec![(1u32, "".to_string()), (2u32, "ext/vscode".to_string()), (3u32, "ext".to_string())];
    assert_eq!(owning_project("crates/core/src/lib.rs", &projects), Some(1));
    assert_eq!(owning_project("ext/vscode/src/extension.ts", &projects), Some(2));
    assert_eq!(owning_project("ext/vscode", &projects), Some(2));
    assert_eq!(owning_project("ext/other.ts", &projects), Some(3));
    assert_eq!(owning_project("extra/a.ts", &projects[1..]), None);
}

#[test]
fn tokenize_snake_case_splits_on_underscore() {
    assert_eq!(tokenize("strip_rs_extension"), vec!["strip", "rs", "extension"]);
}

#[test]
fn tokenize_camel_case_splits_on_case_transition() {
    assert_eq!(tokenize("parseFile"), vec!["parse", "file"]);
    assert_eq!(tokenize("parseFileName"), vec!["parse", "file", "name"]);
}

#[test]
fn tokenize_pascal_case_splits_correctly() {
    assert_eq!(tokenize("ParseFile"), vec!["parse", "file"]);
}

#[test]
fn tokenize_mixed_separators_are_normalised() {
    assert_eq!(tokenize("Strip_RS_Extension"), vec!["strip", "rs", "extension"]);
}

#[test]
fn tokenize_digit_alpha_boundaries_split() {
    assert_eq!(tokenize("parse2json"), vec!["parse", "2", "json"]);
    assert_eq!(tokenize("v2Api"), vec!["v", "2", "api"]);
}

#[test]
fn tokenize_empty_string_returns_empty_vec() {
    assert!(tokenize("").is_empty());
}

#[test]
fn tokenize_single_word_kept_verbatim_lowercased() {
    assert_eq!(tokenize("strip"), vec!["strip"]);
    assert_eq!(tokenize("Strip"), vec!["strip"]);
}

#[test]
fn tokenize_dollar_and_dash_split_like_underscore() {
    assert_eq!(tokenize("parse$file-name"), vec!["parse", "file", "name"]);
}

#[test]
fn tokenize_separators_only_and_unicode() {
    assert!(tokenize("__--$$").is_empty());
    assert_eq!(tokenize("ÉtéÀ_x"), vec!["étéà", "x"]);
}

#[test]
fn core_symbol_lookup_filters_external_and_finds_def_site() {
    let l = CoreSymbolLookup::new(vec![
        SymbolRef { fqdn: "a::f".into(), file: "src/a.rs".into(), is_external: false },
        SymbolRef { fqdn: "dep::g".into(), file: "dep.d.ts".into(), is_external: true },
        SymbolRef { fqdn: "b::h".into(), file: "src/b.rs".into(), is_external: false },
    ]);
    assert_eq!(l.workspace_fqdns(), vec!["a::f".to_string(), "b::h".to_string()]);
    assert_eq!(l.def_site_path("dep::g"), Some("dep.d.ts".into()));
    assert_eq!(l.def_site_path("zz"), None);
}

#[test]
fn primary_workspace_kind_picks_first_rooted_at_scan_root() {
    let ws = vec![
        DetectedWorkspace { root: "/repo/sub".into(), kind: WorkspaceKind::Npm },
        DetectedWorkspace { root: "/repo".into(), kind: WorkspaceKind::Cargo },
        DetectedWorkspace { root: "/repo/".into(), kind: WorkspaceKind::Npm },
    ];
    assert_eq!(primary_workspace_kind(&ws, "/repo"), Some(WorkspaceKind::Cargo));
    assert_eq!(primary_workspace_kind(&ws, "/repo/sub/"), Some(WorkspaceKind::Npm));
    assert_eq!(primary_workspace_kind(&ws, "/elsewhere"), None);
    assert_eq!(primary_workspace_kind(&Vec::new(), "/repo"), None);
}

fn v(xs: &[&str]) -> Vec<String> {
    xs.iter().map(|s| s.to_string()).collect()
}

#[test]
fn token_overlap_counts_distinct_shared_and_total_tokens() {
    assert_eq!(token_overlap(&v(&[]), &v(&[])), (0, 0));
    assert_eq!(token_overlap(&v(&["a"]), &v(&[])), (0, 1));
    assert_eq!(token_overlap(&v(&["a", "b"]), &v(&["a", "b"])), (2, 2));
    assert_eq!(token_overlap(&v(&["a", "b"]), &v(&["c", "d"])), (0, 4));
    // repeats on one side do not inflate either count
    assert_eq!(token_overlap(&v(&["a", "a", "b"]), &v(&["a", "b"])), (2, 2));
    // strip_rs_extension vs strip_ts_extension: 2 shared of 4
    let a = tokenize("strip_rs_extension");
    let b = tokenize("strip_ts_extension");
    assert_eq!(token_overlap(&a, &b), (2, 4));
}
