use standardoc_core::lockfiles::SourceOrigin;
use standardoc_core::peers::{
    tally_peer_files,
    scope_extracted_paths, EmbeddedPaths,
    debounce_ms_from_meta, peer_hash_matches, peer_path, peer_preflight, resolve_owner,
    route_peer_path, route_primary_path, Owner, PeerAction, PeerExtractStats, PeerExtractStatus,
    PeerFileOutcome, PeerRegistry, PeerRoot, PrimaryAction,
};

#[test]
fn peer_extract_peer_path_primary_round_trips_unchanged() {
    assert_eq!(peer_path("primary", "src/lib.rs"), "src/lib.rs");
}

#[test]
fn peer_extract_peer_path_non_primary_carries_workspace_prefix() {
    assert_eq!(
        peer_path("peer-uuid-1", "src/lib.rs"),
        "ws:peer-uuid-1:src/lib.rs"
    );
}

#[test]
fn tests_peer_path_primary_round_trips_unchanged() {
    assert_eq!(peer_path("primary", "src/lib.rs"), "src/lib.rs");
}

#[test]
fn tests_peer_path_non_primary_carries_workspace_prefix() {
    assert_eq!(
        peer_path("peer-uuid-1", "src/lib.rs"),
        "ws:peer-uuid-1:src/lib.rs"
    );
}

#[test]
fn peer_preflight_orders_inactive_before_missing() {
    assert_eq!(peer_preflight(false, false), Some(PeerExtractStatus::SkippedInactive));
    assert_eq!(peer_preflight(true, false), Some(PeerExtractStatus::SkippedMissing));
    assert_eq!(peer_preflight(true, true), None);
}

#[test]
fn peer_stats_count_only_counted_outcomes() {
    let mut s = PeerExtractStats::start("w".into(), "/p".into());
    for o in [
        PeerFileOutcome::Extracted,
        PeerFileOutcome::Extracted,
        PeerFileOutcome::Unchanged,
        PeerFileOutcome::ParseError,
        PeerFileOutcome::ReadFailed,
        PeerFileOutcome::NotUtf8,
        PeerFileOutcome::ProviderIoError,
        PeerFileOutcome::UnsupportedLanguage,
        PeerFileOutcome::OutsideRoot,
    ] {
        s.record(o);
    }
    assert_eq!(s.files_extracted, 2);
    assert_eq!(s.files_skipped_unchanged, 1);
    assert_eq!(s.files_parse_errors, 1);
    assert_eq!(s.status, PeerExtractStatus::Succeeded);
    assert!(s.wrote_rows());
    let fresh = PeerExtractStats::start("w".into(), "/p".into());
    assert!(!fresh.wrote_rows());
}

#[test]
fn peer_hash_matches_compares_stored_hex() {
    assert!(peer_hash_matches(&Some("ab12".into()), "ab12"));
    assert!(!peer_hash_matches(&Some("ab12".into()), "ab13"));
    assert!(!peer_hash_matches(&None, "ab12"));
}

#[test]
fn registry_add_is_idempotent_and_remove_forgets() {
    let mut r = PeerRegistry::new();
    assert!(r.add("a".into(), "/peer/a".into()));
    assert!(!r.add("a".into(), "/elsewhere".into()));
    assert!(r.add("b".into(), "/peer/b".into()));
    let snap = r.snapshot();
    assert_eq!(snap.len(), 2);
    assert_eq!(snap[0].root, "/peer/a");
    let removed = r.remove("a").expect("a was registered");
    assert_eq!(removed.workspace_id, "a");
    assert!(!r.contains("a"));
    assert!(r.remove("a").is_none());
    assert!(r.contains("b"));
    assert_eq!(r.snapshot().len(), 1);
}

#[test]
fn resolve_owner_prefers_primary_then_first_peer() {
    let peers = vec![
        PeerRoot { workspace_id: "p1".into(), root: "/peers/one".into() },
        PeerRoot { workspace_id: "p2".into(), root: "/peers".into() },
    ];
    assert_eq!(resolve_owner("/ws/src/a.rs", "/ws", &peers), Some(Owner::Primary));
    assert_eq!(
        resolve_owner("/peers/one/x.rs", "/ws", &peers),
        Some(Owner::Peer { workspace_id: "p1".into(), peer_root: "/peers/one".into() })
    );
    assert_eq!(
        resolve_owner("/peers/two/x.rs", "/ws", &peers),
        Some(Owner::Peer { workspace_id: "p2".into(), peer_root: "/peers".into() })
    );
    assert_eq!(resolve_owner("/ws2/a.rs", "/ws", &peers), None);
}

#[test]
fn route_primary_path_follows_the_rule_order() {
    assert_eq!(route_primary_path("/other/a.rs", "/ws", false, true, true), PrimaryAction::Ignore);
    assert_eq!(
        route_primary_path("/ws/standardoc.sxd", "/ws", false, true, true),
        PrimaryAction::ReloadConfig
    );
    assert_eq!(
        route_primary_path("/ws/Cargo.lock", "/ws", false, true, true),
        PrimaryAction::Lockfile(SourceOrigin::CargoRegistry)
    );
    assert_eq!(
        route_primary_path("/ws/crates/x/Cargo.toml", "/ws", false, true, true),
        PrimaryAction::Manifest
    );
    assert_eq!(route_primary_path("/ws/src/a.rs", "/ws", true, true, true), PrimaryAction::Ignore);
    assert_eq!(route_primary_path("/ws/notes.txt", "/ws", false, true, true), PrimaryAction::Ignore);
    assert_eq!(
        route_primary_path("/ws/src/a.rs", "/ws", false, true, true),
        PrimaryAction::Upsert("src/a.rs".into())
    );
    assert_eq!(
        route_primary_path("/ws/src/a.rs", "/ws", false, false, false),
        PrimaryAction::Delete("src/a.rs".into())
    );
    assert_eq!(route_primary_path("/ws/src/a.rs", "/ws", false, false, true), PrimaryAction::Ignore);
}

#[test]
fn route_peer_path_skips_unsupported_and_routes_files() {
    assert_eq!(route_peer_path("/p/Cargo.toml", "/p", true, true), PeerAction::Ignore);
    assert_eq!(route_peer_path("/p/src/a.ts", "/p", true, true), PeerAction::Upsert("src/a.ts".into()));
    assert_eq!(route_peer_path("/p/src/a.ts", "/p", false, false), PeerAction::Delete("src/a.ts".into()));
    assert_eq!(route_peer_path("/q/src/a.ts", "/p", true, true), PeerAction::Ignore);
}

#[test]
fn debounce_ms_parses_or_reports_value() {
    assert_eq!(debounce_ms_from_meta("250"), Ok(250));
    assert_eq!(
        debounce_ms_from_meta("soon"),
        Err("malformed watcher_debounce_ms: soon".to_string())
    );
}

fn one_symbol_file() -> EmbeddedPaths {
    EmbeddedPaths {
        file: "src/lib.rs".into(),
        symbol_files: vec!["src/lib.rs".into()],
        edge_site_files: vec![],
        call_site_files: vec![],
    }
}

#[test]
fn peer_extract_scope_extracted_paths_primary_is_no_op() {
    let mut ef = EmbeddedPaths {
        file: "src/lib.rs".into(),
        symbol_files: vec![],
        edge_site_files: vec![],
        call_site_files: vec![],
    };
    scope_extracted_paths(&mut ef, "primary");
    assert_eq!(ef.file, "src/lib.rs", "primary must NOT be prefixed");
}

#[test]
fn tests_scope_extracted_paths_primary_is_no_op() {
    let mut ef = one_symbol_file();
    scope_extracted_paths(&mut ef, "primary");
    assert_eq!(ef, one_symbol_file(), "primary must NOT be prefixed");
}

#[test]
fn peer_extract_scope_extracted_paths_peer_rewrites_every_embedded_path() {
    let mut ef = one_symbol_file();
    scope_extracted_paths(&mut ef, "peer-1");
    assert_eq!(ef.file, "ws:peer-1:src/lib.rs");
    assert_eq!(ef.symbol_files[0], "ws:peer-1:src/lib.rs");
}

#[test]
fn tests_scope_extracted_paths_peer_rewrites_every_embedded_path() {
    let mut ef = one_symbol_file();
    scope_extracted_paths(&mut ef, "peer-1");
    assert_eq!(ef.file, "ws:peer-1:src/lib.rs");
    assert_eq!(ef.symbol_files[0], "ws:peer-1:src/lib.rs");
}

#[test]
fn scope_extracted_paths_rewrites_sites_and_keeps_shape() {
    let mut ef = EmbeddedPaths {
        file: "src/a.rs".into(),
        symbol_files: vec!["src/a.rs".into(), "src/a.rs".into()],
        edge_site_files: vec![vec![], vec!["src/a.rs".into(), "src/other.rs".into()]],
        call_site_files: vec!["src/a.rs".into()],
    };
    scope_extracted_paths(&mut ef, "p");
    let s = "ws:p:src/a.rs".to_string();
    assert_eq!(ef.file, s);
    assert_eq!(ef.symbol_files, vec![s.clone(), s.clone()]);
    assert_eq!(ef.edge_site_files, vec![vec![], vec![s.clone(), s.clone()]]);
    assert_eq!(ef.call_site_files, vec![s]);
}

#[test]
fn peer_tally_counts_extracted_unchanged_and_parse_errors() {
    let outcomes = vec![
        PeerFileOutcome::Extracted,
        PeerFileOutcome::Unchanged,
        PeerFileOutcome::ReadFailed,
        PeerFileOutcome::ParseError,
        PeerFileOutcome::Extracted,
        PeerFileOutcome::NotUtf8,
    ];
    let s = tally_peer_files("p".into(), "/peer".into(), &outcomes);
    assert_eq!(s.status, PeerExtractStatus::Succeeded);
    assert_eq!((s.files_extracted, s.files_skipped_unchanged, s.files_parse_errors), (2, 1, 1));
    assert!(s.wrote_rows());
}
