use standardoc_core::resolve::sweep_report;
use standardoc_core::writer::{plan_write, IngestCommand, WritePlan};
use standardoc_core::ingest::{revision_from_meta, InvalidSchemaMetadata};
use standardoc_core::call_sites::receiver_chain_of;
use standardoc_core::filters::pattern_lines;
use standardoc_core::filters::{newly_allowed, newly_excluded};
use standardoc_core::ingest::content_unchanged;
use standardoc_core::lockfiles::blake3_hex;
use standardoc_core::rows::graph_symbols_param;
use standardoc_core::builtins::{
    group_by_language, seed_method_symbol, seed_symbol, synthetic_file_path, synthetic_module,
    BuiltinEntry, BuiltinMethodEntry,
};
use standardoc_core::cold_start::{
    is_candidate, is_dir_excluded, progress_text, unseen_paths, ColdStartError, ScanProgress,
};
use standardoc_core::cross_workspace::{
    edge_candidate, is_local, language_supports_workspace_prefix, local_prefix, rewrite_target,
    stamp_attrs, CrossLookup, EdgeTarget, SuffixChain,
};
use standardoc_core::diff::{diff_symbols, DbSymbolRow, ExtractedSymbol};
use standardoc_core::filters::{
    is_ignored_by_layers, preview_pattern_matches, LayerVerdict, PatternPreviewError, WalkEntry,
};
use standardoc_core::ingest::{
    current_unix_ms, has_writes, next_revision, outcome_of_extraction, parse_error_row,
    unix_ms_from, FileRow, Outcome,
};
use standardoc_core::joins::{
    c_join_action, ffi_attribute, ffi_attribute_needle, ffi_plan, BindingSide, CJoinAction,
    CJoinReport,
};
use standardoc_core::paths::Language;
use standardoc_core::provider::ExtractError;
use standardoc_core::resolve::{
    builtin_candidate, builtin_trait_method_pattern, first_tier, implementor_pattern, next_tier,
    receiver_candidate, receiver_is_fqdn, suffix_pattern, unique_match, ResolveReport,
    ResolveTier,
};

fn row(id: i64, fqdn: &str, hash: Option<&str>) -> DbSymbolRow {
    DbSymbolRow { id, fqdn: fqdn.into(), body_hash: hash.map(|h| h.to_string()) }
}

fn sym(fqdn: &str, hash: Option<&str>) -> ExtractedSymbol {
    ExtractedSymbol { fqdn: fqdn.into(), body_hash: hash.map(|h| h.to_string()) }
}

#[test]
fn diff_all_new_when_existing_empty() {
    let plan = diff_symbols(&[], &[sym("crate::a", Some("01")), sym("crate::b", Some("02"))]);
    assert_eq!(plan.inserts, vec![0, 1]);
    assert!(plan.modifications.is_empty());
    assert!(plan.position_updates.is_empty());
    assert!(plan.deletions.is_empty());
}

#[test]
fn diff_mixed_buckets() {
    let existing = vec![
        row(1, "crate::keep", Some("01")),
        row(2, "crate::edit", Some("02")),
        row(3, "crate::gone", Some("03")),
    ];
    let extracted = vec![
        sym("crate::keep", Some("01")),
        sym("crate::edit", Some("ee")),
        sym("crate::brand_new", Some("42")),
    ];
    let plan = diff_symbols(&existing, &extracted);
    assert_eq!(plan.inserts, vec![2]);
    assert_eq!(plan.modifications, vec![(2, 1)]);
    assert_eq!(plan.position_updates, vec![(1, 0)]);
    assert_eq!(plan.deletions, vec![3]);
}

fn hex_of(b: u8) -> String {
    format!("{b:02x}").repeat(32)
}

#[test]
fn diff_all_unchanged_when_hashes_match() {
    let existing = vec![row(7, "crate::a", Some(&hex_of(0x01)))];
    let extracted = vec![sym("crate::a", Some(&hex_of(0x01)))];
    let plan = diff_symbols(&existing, &extracted);
    assert!(plan.inserts.is_empty());
    assert!(plan.modifications.is_empty());
    assert_eq!(plan.position_updates.len(), 1);
    assert_eq!(plan.position_updates[0].0, 7);
    assert!(plan.deletions.is_empty());
}

#[test]
fn diff_modified_when_body_hash_differs() {
    let existing = vec![row(7, "crate::a", Some(&hex_of(0x01)))];
    let extracted = vec![sym("crate::a", Some(&hex_of(0x99)))];
    let plan = diff_symbols(&existing, &extracted);
    assert_eq!(plan.modifications.len(), 1);
    assert_eq!(plan.modifications[0].0, 7);
    assert!(plan.position_updates.is_empty());
}

#[test]
fn diff_disappeared_when_extracted_misses_existing_fqdn() {
    let existing = vec![row(7, "crate::a", Some(&hex_of(0x01))), row(8, "crate::b", Some(&hex_of(0x02)))];
    let extracted = vec![sym("crate::a", Some(&hex_of(0x01)))];
    let plan = diff_symbols(&existing, &extracted);
    assert_eq!(plan.deletions, vec![8]);
    assert_eq!(plan.position_updates.len(), 1);
}

#[test]
fn diff_modified_when_db_hash_null_but_provider_set() {
    let plan = diff_symbols(&[row(7, "crate::a", None)], &[sym("crate::a", Some("01"))]);
    assert_eq!(plan.modifications, vec![(7, 0)]);
}

#[test]
fn cross_workspace_locality_and_prefix() {
    assert!(is_local("app", "app"));
    assert!(is_local("app::x::y", "app"));
    assert!(!is_local("apple::x", "app"));
    assert_eq!(local_prefix("lur_common::span"), "lur_common");
    assert_eq!(local_prefix("single"), "single");
    assert!(language_supports_workspace_prefix(Language::Lua));
    assert!(!language_supports_workspace_prefix(Language::Vue));
}

#[test]
fn stamp_attrs_is_idempotent() {
    let mut attrs = vec!["x".to_string()];
    stamp_attrs(&mut attrs, "w1");
    assert_eq!(attrs, vec!["x", "cross-workspace", "peer-w1"]);
    stamp_attrs(&mut attrs, "w1");
    assert_eq!(attrs.len(), 3);
    stamp_attrs(&mut attrs, "w2");
    assert_eq!(attrs, vec!["x", "cross-workspace", "peer-w1", "peer-w2"]);
}

#[test]
fn suffix_chain_walks_longest_module_first_and_appends_tail() {
    assert!(SuffixChain::new("plain").is_none());
    let mut chain = SuffixChain::new("lur_common::Span::new").unwrap();
    assert_eq!(chain.next_query(), Some(("lur_common::Span".into(), "new".into())));
    assert_eq!(chain.feed(CrossLookup::Unknown), None);
    assert_eq!(chain.next_query(), Some(("lur_common".into(), "Span".into())));
    let hit = chain.feed(CrossLookup::Hit {
        workspace_id: "w".into(),
        fqdn: "lur-common::span::Span".into(),
    });
    assert_eq!(
        hit,
        Some(CrossLookup::Hit { workspace_id: "w".into(), fqdn: "lur-common::span::Span::new".into() })
    );
}

#[test]
fn suffix_chain_falls_back_to_first_known_peer() {
    let mut chain = SuffixChain::new("a::b::c").unwrap();
    assert_eq!(chain.feed(CrossLookup::KnownPeerMissingSymbol { workspace_id: "p1".into() }), None);
    assert_eq!(chain.feed(CrossLookup::KnownPeerMissingSymbol { workspace_id: "p2".into() }), None);
    assert_eq!(chain.next_query(), None);
    assert_eq!(
        chain.finish(),
        Some(CrossLookup::KnownPeerMissingSymbol { workspace_id: "p1".into() })
    );
}

#[test]
fn rewrite_target_outcomes() {
    let t = EdgeTarget::Unresolved { name: "dep::f".into() };
    assert_eq!(edge_candidate(&t), Some("dep::f".into()));
    assert_eq!(
        edge_candidate(&EdgeTarget::UnresolvedBridge { bridge: "b".into(), name: "n".into() }),
        None
    );
    let r = rewrite_target(CrossLookup::KnownPeerMissingSymbol { workspace_id: "w".into() }, "dep::f".into());
    assert_eq!(
        r,
        Some((
            EdgeTarget::UnresolvedBridge { bridge: "custom:cross-workspace".into(), name: "dep::f".into() },
            "w".into()
        ))
    );
    assert_eq!(rewrite_target(CrossLookup::Unknown, "x".into()), None);
}

#[test]
fn builtins_paths_and_rows() {
    assert_eq!(synthetic_file_path(Language::TypeScript), "<builtin>/ts");
    assert_eq!(synthetic_module(Language::Lua), "<builtin>::lua");
    let e = BuiltinEntry {
        language: Language::Lua,
        name: "print".into(),
        synthetic_fqdn: "<builtin>::lua::print".into(),
        kind: "function".into(),
    };
    let s = seed_symbol(&e);
    assert_eq!(s.module, "<builtin>::lua");
    assert_eq!(s.file_path, "<builtin>/lua");
    assert_eq!(s.language_kind, "builtin");
    let m = BuiltinMethodEntry {
        language: Language::Rust,
        parent_type: "Vec".into(),
        method: "push".into(),
        synthetic_fqdn: "<builtin>::rust::Vec::push".into(),
        is_trait: false,
    };
    let s = seed_method_symbol(&m);
    assert_eq!(s.module, "<builtin>::rust::Vec");
    assert_eq!(s.receiver_type, Some("Vec".into()));
    assert!(s.flags.is_empty());
    let t = seed_method_symbol(&BuiltinMethodEntry { is_trait: true, ..m });
    assert_eq!(t.flags, vec!["trait_method".to_string()]);
}

#[test]
fn group_by_language_partitions_in_first_appearance_order() {
    let g = group_by_language(&[Language::Lua, Language::Rust, Language::Lua, Language::C]);
    assert_eq!(
        g,
        vec![(Language::Lua, vec![0, 2]), (Language::Rust, vec![1]), (Language::C, vec![3])]
    );
    assert!(group_by_language(&[]).is_empty());
}

#[test]
fn resolve_cascade_and_texts() {
    assert_eq!(first_tier("CALLS", true), ResolveTier::ReceiverExact);
    assert_eq!(first_tier("CALLS", false), ResolveTier::SuffixChain);
    assert_eq!(first_tier("IMPORTS", true), ResolveTier::SuffixChain);
    assert_eq!(next_tier(ResolveTier::ReceiverExact, true), Some(ResolveTier::ReceiverBuiltin));
    assert_eq!(next_tier(ResolveTier::ReceiverExact, false), Some(ResolveTier::ReceiverSuffix));
    assert_eq!(next_tier(ResolveTier::SuffixChain, false), None);
    assert!(receiver_is_fqdn("crate::Foo"));
    assert!(!receiver_is_fqdn("Vec"));
    let c = receiver_candidate("Vec", "push");
    assert_eq!(c, "Vec::push");
    assert_eq!(suffix_pattern(&c), "%::Vec::push");
    assert_eq!(builtin_candidate(&c), "<builtin>::rust::Vec::push");
    assert_eq!(implementor_pattern("crate::Foo"), "");
    assert_eq!(implementor_pattern("Foo"), "%::Foo");
    assert_eq!(builtin_trait_method_pattern("into"), "<builtin>::rust::%::into");
    assert_eq!(unique_match(&[5]), Some(5));
    assert_eq!(unique_match(&[5, 6]), None);
    assert_eq!(unique_match(&[]), None);
}

#[test]
fn resolve_report_counts() {
    let mut r = ResolveReport::new();
    r.note_hit(ResolveTier::ReceiverSuffix);
    r.note_hit(ResolveTier::TraitDispatch);
    r.note_hit(ResolveTier::SuffixChain);
    r.note_unresolved();
    r.note_update(1);
    r.note_update(0);
    assert_eq!(r.resolved_via_receiver_type, 1);
    assert_eq!(r.resolved_via_trait_dispatch, 1);
    assert_eq!(r.resolved_via_builtin_trait_method, 0);
    assert_eq!(r.still_unresolved, 1);
    assert_eq!(r.resolved, 1);
    assert_eq!(r.duplicate_skipped, 1);
    assert!(r.noteworthy());
    assert!(!ResolveReport::new().noteworthy());
}

fn walk() -> Vec<WalkEntry> {
    vec![
        WalkEntry { rel: "".into(), is_dir: true },
        WalkEntry { rel: "target".into(), is_dir: true },
        WalkEntry { rel: "target/debug".into(), is_dir: true },
        WalkEntry { rel: "target/debug/a.o".into(), is_dir: false },
        WalkEntry { rel: "src".into(), is_dir: true },
        WalkEntry { rel: "src/lib.rs".into(), is_dir: false },
    ]
}

#[test]
fn preview_pattern_matches_dir_pattern_reports_subtree() {
    let p = preview_pattern_matches("/ws", "target/", &walk(), 2).unwrap();
    assert_eq!(p.total_count, 3);
    assert_eq!(p.matches, vec!["target".to_string(), "target/debug".to_string()]);
    assert!(p.truncated);
    assert!(!p.walk_truncated);
    assert_eq!(p.pattern, "target/");
}

#[test]
fn preview_pattern_matches_blank_and_comment_are_empty() {
    for pat in ["   ", "# comment"] {
        let p = preview_pattern_matches("/ws", pat, &walk(), 10).unwrap();
        assert_eq!(p.total_count, 0);
        assert!(p.matches.is_empty());
        assert_eq!(p.pattern, pat);
    }
}

#[test]
fn preview_pattern_matches_glob_and_invalid() {
    let p = preview_pattern_matches("/ws", "*.rs", &walk(), 10).unwrap();
    assert_eq!(p.matches, vec!["src/lib.rs".to_string()]);
    assert!(!p.truncated);
    let err = preview_pattern_matches("/ws", "a{b", &walk(), 10).unwrap_err();
    let PatternPreviewError::InvalidPattern(_) = &err;
    assert!(err.message().starts_with("invalid .stdignore pattern: "));
}

#[test]
fn layered_ignore_closest_parent_wins() {
    let (i, w, n) = (LayerVerdict::Ignore, LayerVerdict::Whitelist, LayerVerdict::NoOpinion);
    assert!(!is_ignored_by_layers("", &[i]));
    assert!(is_ignored_by_layers("a", &[i, n]));
    assert!(!is_ignored_by_layers("a", &[i, w]));
    assert!(is_ignored_by_layers("a", &[w, i, n]));
    assert!(!is_ignored_by_layers("a", &[n]));
}

#[test]
fn c_join_actions_and_report() {
    assert_eq!(c_join_action(&[]), CJoinAction::KeepOrphan);
    assert_eq!(c_join_action(&[9]), CJoinAction::Join(9));
    assert_eq!(c_join_action(&[9, 10]), CJoinAction::SkipAmbiguous);
    let mut r = CJoinReport::new();
    r.count(CJoinAction::Join(1));
    r.count(CJoinAction::KeepOrphan);
    r.count(CJoinAction::SkipAmbiguous);
    r.count(CJoinAction::KeepOrphan);
    assert_eq!((r.joined, r.orphans_kept, r.ambiguous_skipped), (1, 2, 1));
}

fn side(id: i64, fqdn: &str, abi: &str, name: &str) -> BindingSide {
    BindingSide { symbol_id: id, fqdn: fqdn.into(), abi: abi.into(), abi_name: name.into() }
}

#[test]
fn ffi_plan_matches_one_to_one_only() {
    let exports = vec![
        side(1, "c::lur_new", "c", "lur_new"),
        side(2, "c::dup", "c", "dup"),
        side(3, "rs::dup", "c", "dup"),
        side(4, "c::self_ref", "c", "self_ref"),
    ];
    let imports = vec![
        side(10, "rs::use_new", "c", "lur_new"),
        side(11, "rs::use_dup", "c", "dup"),
        side(12, "rs::use_missing", "c", "missing"),
        side(4, "c::self_ref", "c", "self_ref"),
        side(13, "rs::other_abi", "wasm", "lur_new"),
    ];
    let plan = ffi_plan(&exports, &imports);
    assert_eq!(plan.candidates.len(), 1);
    assert_eq!(plan.candidates[0].importer_id, 10);
    assert_eq!(plan.candidates[0].exporter_id, 1);
    assert_eq!(plan.candidates[0].abi, "c");
    assert_eq!(plan.ambiguous_skipped, 1);
    assert_eq!(plan.orphans_skipped, 2);
    assert_eq!(ffi_attribute("c"), "ffi:c");
    assert_eq!(ffi_attribute_needle("c"), "%\"ffi:c\"%");
}

#[test]
fn outcome_of_extraction_maps_provider_answers() {
    assert_eq!(
        outcome_of_extraction("a.rs".into(), Ok::<u8, ExtractError>(7)),
        Some(Outcome::Upsert { rel: "a.rs".into(), extracted: 7 })
    );
    let parse = ExtractError::Parse { file: "a.rs".into(), detail: "bad".into() };
    assert_eq!(
        outcome_of_extraction::<u8>("a.rs".into(), Err(parse)),
        Some(Outcome::ParseError { rel: "a.rs".into(), language: Language::Rust, detail: "bad".into() })
    );
    let parse = ExtractError::Parse { file: "a.txt".into(), detail: "bad".into() };
    assert_eq!(outcome_of_extraction::<u8>("a.txt".into(), Err(parse)), None);
    assert_eq!(outcome_of_extraction::<u8>("a.rs".into(), Err(ExtractError::Io("x".into()))), None);
    assert!(!has_writes::<u8>(&[Outcome::Skip { rel: "a".into() }]));
    assert!(has_writes(&[Outcome::Skip { rel: "a".into() }, Outcome::Upsert { rel: "b".into(), extracted: 1u8 }]));
    assert_eq!(next_revision(4), 5);
    assert_eq!(next_revision(u64::MAX), u64::MAX);
}

#[test]
fn parse_error_row_updates_or_creates() {
    let fresh = parse_error_row(None, "a.rs".into(), Language::Rust, "boom".into(), 42);
    assert_eq!(fresh.content_hash, "0".repeat(64));
    assert_eq!(fresh.last_scan_error, Some("boom".into()));
    assert_eq!(fresh.byte_size, 0);
    let prev = FileRow {
        path: "a.rs".into(),
        content_hash: "ab".into(),
        language: Language::Rust,
        byte_size: 10,
        last_scanned: 1,
        last_scan_error: None,
        is_external: false,
    };
    let upd = parse_error_row(Some(prev), "ignored".into(), Language::C, "e".into(), 9);
    assert_eq!(upd.content_hash, "ab");
    assert_eq!(upd.byte_size, 10);
    assert_eq!(upd.last_scanned, 9);
    assert_eq!(upd.last_scan_error, Some("e".into()));
}

#[test]
fn unix_ms_conversion() {
    assert_eq!(unix_ms_from(1234), Ok(1234));
    assert_eq!(
        unix_ms_from(u128::from(u64::MAX)),
        Err(format!("unix_ms {} exceeds i64::MAX", u64::MAX))
    );
    assert!(current_unix_ms().unwrap() > 1_600_000_000_000);
}

#[test]
fn cold_start_bookkeeping() {
    assert!(is_candidate("/ws/src/a.rs", "/ws", true, false));
    assert!(!is_candidate("/ws/src/a.rs", "/ws", true, true));
    assert!(!is_candidate("/ws/README.md", "/ws", true, false));
    assert!(!is_candidate("/other/a.rs", "/ws", true, false));
    assert!(is_dir_excluded("/ws/target", "/ws", 1, true, true));
    assert!(!is_dir_excluded("/ws", "/ws", 0, true, true));
    assert_eq!(progress_text(100, 250), "100/250");
    let mut p = ScanProgress::new(250);
    assert_eq!(p.next_chunk(), Some((0, 100)));
    assert_eq!(p.next_chunk(), Some((100, 200)));
    assert_eq!(p.next_chunk(), Some((200, 250)));
    assert_eq!(p.next_chunk(), None);
    assert_eq!(p.counters(), (250, 250));
    let stored = vec![("a.rs".to_string(), false), ("ext.d.ts".to_string(), true), ("gone.rs".to_string(), false)];
    assert_eq!(unseen_paths(&stored, &["a.rs".to_string()]), vec!["gone.rs".to_string()]);
    assert_eq!(ColdStartError::Walk("loop".into()).message(), "walk: loop");
}

#[test]
fn filter_reload_reports_newly_excluded_and_allowed() {
    let paths: Vec<String> = vec!["a.rs".into(), "b.rs".into(), "c.rs".into(), "d.rs".into()];
    let old_skip = vec![false, true, false, true];
    let new_skip = vec![true, false, false, true];
    assert_eq!(newly_excluded(&paths, &old_skip, &new_skip), vec!["a.rs".to_string()]);
    assert_eq!(newly_allowed(&paths, &old_skip, &new_skip), vec!["b.rs".to_string()]);
}

#[test]
fn content_unchanged_compares_stored_hash_with_blake3_of_bytes() {
    let bytes = b"fn main() {}";
    let h = blake3_hex(bytes);
    assert!(content_unchanged(&Some(h.clone()), bytes));
    assert!(!content_unchanged(&Some(h), b"fn main() { }"));
    assert!(!content_unchanged(&None, bytes));
    assert_eq!(
        blake3_hex(b""),
        "af1349b9f5f9a1a6a0404dea36dcc9499bcb25c9adc112b7cc9a93cae41f3262"
    );
}

#[test]
fn graph_symbols_param_is_a_json_array_or_nothing() {
    assert_eq!(graph_symbols_param(&[]), None);
    let fqdns = vec!["a::b".to_string(), "c\"d".to_string()];
    assert_eq!(graph_symbols_param(&fqdns), Some(Ok(r#"["a::b","c\"d"]"#.to_string())));
}

#[test]
fn pattern_lines_trims_and_skips_blank_and_comment_lines() {
    let block = "target/\n\n  # comment\n  node_modules/  \r\n!keep.rs";
    assert_eq!(pattern_lines(block), vec!["target/", "node_modules/", "!keep.rs"]);
    assert_eq!(pattern_lines(""), Vec::<String>::new());
}

#[test]
fn revision_from_meta_parses_or_names_the_key() {
    assert_eq!(revision_from_meta("42".into()), Ok(42));
    assert_eq!(
        revision_from_meta("x1".into()),
        Err(InvalidSchemaMetadata { key: "revision".into(), value: "x1".into() })
    );
}

#[test]
fn receiver_chain_decodes_json_string_arrays() {
    assert_eq!(receiver_chain_of(r#"["self","items"]"#), Ok(vec!["self".to_string(), "items".to_string()]));
    assert!(receiver_chain_of("[1]").is_err());
}

#[test]
fn plan_write_scopes_peer_paths_and_keeps_primary_ones() {
    match plan_write(IngestCommand::UpsertFile { path: "src/a.rs".into(), extracted: 7u8 }) {
        WritePlan::Upsert { extracted, workspace_id, rehome } => {
            assert_eq!((extracted, workspace_id.as_str(), rehome), (7, "primary", false));
        }
        other => panic!("unexpected {other:?}"),
    }
    match plan_write(IngestCommand::UpsertPeerFile {
        workspace_id: "p1".into(),
        path: "src/a.rs".into(),
        extracted: 9u8,
    }) {
        WritePlan::Upsert { extracted, workspace_id, rehome } => {
            assert_eq!((extracted, workspace_id.as_str(), rehome), (9, "p1", true));
        }
        other => panic!("unexpected {other:?}"),
    }
    match plan_write::<u8>(IngestCommand::DeletePeerFile { workspace_id: "p1".into(), path: "src/a.rs".into() }) {
        WritePlan::Delete { path } => assert_eq!(path, "ws:p1:src/a.rs"),
        other => panic!("unexpected {other:?}"),
    }
    match plan_write::<u8>(IngestCommand::DeleteFile { path: "src/a.rs".into() }) {
        WritePlan::Delete { path } => assert_eq!(path, "src/a.rs"),
        other => panic!("unexpected {other:?}"),
    }
    match plan_write::<u8>(IngestCommand::RecordPeerParseError {
        workspace_id: "p1".into(),
        path: "x.rs".into(),
        language: Language::Rust,
        detail: "bad".into(),
    }) {
        WritePlan::RecordParseError { path, language, detail } => {
            assert_eq!(path, "ws:p1:x.rs");
            assert_eq!(language, Language::Rust);
            assert_eq!(detail, "bad");
        }
        other => panic!("unexpected {other:?}"),
    }
    assert!(matches!(plan_write::<u8>(IngestCommand::RescanFromScratch), WritePlan::RescanInProgress));
}

#[test]
fn sweep_report_counts_every_edge_once() {
    let plans = vec![
        Some(ResolveTier::ReceiverExact),
        None,
        Some(ResolveTier::TraitDispatch),
        Some(ResolveTier::SuffixChain),
        None,
        Some(ResolveTier::BuiltinTraitMethod),
    ];
    let changed = vec![1, 1, 0, 1];
    let r = sweep_report(&plans, &changed);
    assert_eq!(r.resolved_via_receiver_type, 1);
    assert_eq!(r.resolved_via_trait_dispatch, 1);
    assert_eq!(r.resolved_via_builtin_trait_method, 1);
    assert_eq!(r.still_unresolved, 2);
    assert_eq!(r.resolved, 3);
    assert_eq!(r.duplicate_skipped, 1);
    assert_eq!(r.resolved + r.duplicate_skipped + r.still_unresolved, plans.len());
}


#[test]
fn graph_symbols_param_escapes_controls_quotes_and_backslashes() {
    let fqdns = vec!["a\u{1}\n\\".to_string(), "\u{8}\t\u{c}\r\u{1f}".to_string(), "é\u{7f}".to_string()];
    assert_eq!(
        graph_symbols_param(&fqdns),
        Some(Ok(r#"["a\u0001\n\\","\b\t\f\r\u001f","é"#.to_string() + "\u{7f}\"]"))
    );
}
