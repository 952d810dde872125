use standardoc_core::cross_workspace::{
    apply_lookup, edge_lookup, file_lookups, file_rewrite_prefix, rewrite_file_edges, CrossLookup, EdgeTarget,
    ExtractedEdge,
};
use standardoc_core::paths::Language;
use standardoc_core::discovery::{is_convention_path, parse_directive, FrontmatterDirective};
use standardoc_core::fts::{or_fallback_expr, sanitize_fts5_query};
use standardoc_core::lookup::SymbolRef;
use standardoc_core::neighbors::{
    clamp_depth, group_neighbors, inbound_lookup, neighbor_inbound, neighbor_looks_like_test,
    neighbor_outbound, outbound_lookup, EdgeKind, NeighborSymbol,
};
use standardoc_core::query::{
    schema_version,
    next_cursor, revision_placeholders, search_first_pass, search_second_pass, sql_limit,
    stored_revision, symbol_at_position, SymbolFilter, SymbolSpan,
};
use standardoc_core::rows::{
    edge_attributes, edge_site, parse_flags_json, position_to_u32, resolved_fqdn, stored_target,
    symbol_location, StoredTarget,
};

#[test]
fn sanitize_fts5_query_strips_hyphen_and_joins_with_space() {
    assert_eq!(sanitize_fts5_query("standardoc-cli"), "standardoc cli");
}

#[test]
fn sanitize_fts5_query_replaces_double_colon_with_space() {
    assert_eq!(sanitize_fts5_query("Type::method"), "Type method");
}

#[test]
fn sanitize_fts5_query_collapses_consecutive_specials() {
    assert_eq!(sanitize_fts5_query("foo---bar::baz"), "foo bar baz");
}

#[test]
fn sanitize_fts5_query_preserves_alphanumeric_and_underscore_unchanged() {
    assert_eq!(sanitize_fts5_query("my_func2"), "my_func2");
}

#[test]
fn sanitize_fts5_query_empty_for_only_special_chars() {
    assert_eq!(sanitize_fts5_query("---"), "");
    assert_eq!(sanitize_fts5_query(""), "");
    assert_eq!(sanitize_fts5_query("   "), "");
}

#[test]
fn or_fallback_expr_none_for_single_token() {
    assert_eq!(or_fallback_expr("merge_mcp_config"), None);
    assert_eq!(or_fallback_expr(""), None);
}

#[test]
fn or_fallback_expr_quotes_and_or_joins_multiple_tokens() {
    assert_eq!(
        or_fallback_expr("register_with_existing probe_existing_proxy").as_deref(),
        Some(r#""register_with_existing" OR "probe_existing_proxy""#),
    );
}

#[test]
fn is_convention_path_matches_root_readme_and_docs() {
    assert!(is_convention_path("README.md"));
    assert!(is_convention_path("docs/architecture.md"));
    assert!(is_convention_path("docs/sub/nested.md"));
    assert!(is_convention_path("notes/random.md"));
    assert!(is_convention_path("notes/locks/storage-4a.md"));
    assert!(!is_convention_path("src/lib.rs"));
}

#[test]
fn is_convention_path_picks_up_sub_package_readmes() {
    assert!(is_convention_path("standardoc/README.md"));
    assert!(is_convention_path("frontend/README.md"));
    assert!(is_convention_path("crates/foo/README.md"));
    assert!(is_convention_path("standardoc\\README.md"));
    assert!(is_convention_path("CHANGELOG.md"));
    assert!(is_convention_path("standardoc/CHANGELOG.md"));
    assert!(is_convention_path("CONTRIBUTING.md"));
    assert!(is_convention_path("docs/ARCHITECTURE.md"));
    assert!(!is_convention_path("standardoc/notes.md"));
    assert!(!is_convention_path("standardoc/random.md"));
}

#[test]
fn parse_directive_recognises_rag_and_false() {
    assert_eq!(parse_directive("standardoc: rag\n"), FrontmatterDirective::Rag);
    assert_eq!(parse_directive("standardoc: \"rag\"\n"), FrontmatterDirective::Rag);
    assert_eq!(parse_directive("standardoc: true\n"), FrontmatterDirective::Rag);
    assert_eq!(parse_directive("standardoc: false\n"), FrontmatterDirective::Disabled);
    assert_eq!(parse_directive("standardoc: no\n"), FrontmatterDirective::Disabled);
    assert_eq!(parse_directive("standardoc: bogus\n"), FrontmatterDirective::Absent);
    assert_eq!(parse_directive("title: hi\n"), FrontmatterDirective::Absent);
}

// ---------------------------------------------------------------------
// Filters, pages, search passes
// ---------------------------------------------------------------------

#[test]
fn symbol_filter_effective_workspace_id_defaults_to_primary() {
    let default = SymbolFilter::default();
    assert_eq!(default.effective_workspace_id(), "primary");

    let explicit = SymbolFilter { workspace_id: Some("abc".into()), ..Default::default() };
    assert_eq!(explicit.effective_workspace_id(), "abc");
}

#[test]
fn symbol_filter_default_includes_externals_and_constrains_nothing() {
    let f = SymbolFilter::default();
    assert!(f.include_external);
    assert_eq!(f.kind, None);
    assert_eq!(f.visibility, None);
    assert_eq!(f.module, None);
}

#[test]
fn sql_limit_caps_at_i64_max() {
    assert_eq!(sql_limit(0), 0);
    assert_eq!(sql_limit(50), 50);
    assert_eq!(sql_limit(usize::MAX), i64::MAX);
}

#[test]
fn next_cursor_only_for_full_pages() {
    let page: Vec<String> = vec!["a::x".into(), "a::y".into()];
    assert_eq!(next_cursor(&page, 2).as_deref(), Some("a::y"));
    assert_eq!(next_cursor(&page, 3), None);
    assert_eq!(next_cursor(&Vec::new(), 0), None);
}

#[test]
fn search_passes_skip_empty_queries_and_broaden_only_on_miss() {
    assert_eq!(search_first_pass("---"), None);
    assert_eq!(search_first_pass("standardoc-cli").as_deref(), Some("standardoc cli"));
    assert_eq!(
        search_second_pass("standardoc cli", 0).as_deref(),
        Some(r#""standardoc" OR "cli""#)
    );
    assert_eq!(search_second_pass("standardoc cli", 3), None);
    assert_eq!(search_second_pass("single", 0), None);
}

// ---------------------------------------------------------------------
// Symbol under a cursor
// ---------------------------------------------------------------------

fn span(start_line: u32, end_line: u32, start_col: u32, end_col: u32) -> SymbolSpan {
    SymbolSpan { start_line, start_col, end_line, end_col }
}

#[test]
fn symbol_at_position_returns_match_when_in_range() {
    let spans = vec![span(10, 20, 0, 1)];
    assert_eq!(symbol_at_position(&spans, 15, 0), Some(0));
}

#[test]
fn symbol_at_position_picks_smallest_range_when_nested() {
    let spans = vec![span(1, 100, 0, 0), span(10, 20, 4, 1)];
    assert_eq!(symbol_at_position(&spans, 15, 0), Some(1));
}

#[test]
fn symbol_at_position_returns_none_when_out_of_range() {
    let spans = vec![span(10, 20, 0, 1)];
    assert_eq!(symbol_at_position(&spans, 100, 0), None);
}

#[test]
fn symbol_at_position_checks_columns_on_boundary_lines() {
    let spans = vec![span(10, 20, 4, 8)];
    assert_eq!(symbol_at_position(&spans, 10, 3), None);
    assert_eq!(symbol_at_position(&spans, 10, 4), Some(0));
    assert_eq!(symbol_at_position(&spans, 20, 8), Some(0));
    assert_eq!(symbol_at_position(&spans, 20, 9), None);
}

#[test]
fn symbol_at_position_first_of_equal_sizes_wins() {
    let spans = vec![span(1, 2, 0, 0), span(5, 6, 0, 0), span(1, 2, 0, 0)];
    assert_eq!(symbol_at_position(&spans, 1, 3), Some(0));
}

// ---------------------------------------------------------------------
// Revision lookups
// ---------------------------------------------------------------------

#[test]
fn revision_placeholders_number_from_two() {
    assert_eq!(revision_placeholders(0), "");
    assert_eq!(revision_placeholders(1), "?2");
    assert_eq!(revision_placeholders(3), "?2,?3,?4");
    assert_eq!(revision_placeholders(9), "?2,?3,?4,?5,?6,?7,?8,?9,?10");
}

#[test]
fn stored_revision_clamps_negative_to_zero() {
    assert_eq!(stored_revision(-5), 0);
    assert_eq!(stored_revision(0), 0);
    assert_eq!(stored_revision(42), 42);
}

// ---------------------------------------------------------------------
// Neighbourhood
// ---------------------------------------------------------------------

fn resolved(f: &str) -> EdgeTarget {
    EdgeTarget::Resolved { fqdn: f.into() }
}

fn unresolved(n: &str) -> EdgeTarget {
    EdgeTarget::Unresolved { name: n.into() }
}

fn sym(f: &str) -> SymbolRef {
    SymbolRef { fqdn: f.into(), file: "src/main.rs".into(), is_external: false }
}

fn target_text(n: &NeighborSymbol) -> &str {
    match &n.target {
        EdgeTarget::Resolved { fqdn } => fqdn,
        EdgeTarget::Unresolved { name } => name,
        EdgeTarget::UnresolvedBridge { name, .. } => name,
    }
}

#[test]
fn context_with_neighbors_groups_edges_by_kind_and_direction() {
    let outbound = vec![
        neighbor_outbound(EdgeKind::Calls, resolved("crate::baz"), 1, None),
        neighbor_outbound(EdgeKind::Calls, unresolved("external::thing"), 1, None),
        neighbor_outbound(EdgeKind::Imports, resolved("crate::baz"), 1, None),
    ];
    let inbound = vec![
        neighbor_inbound(EdgeKind::Calls, "crate::bar".into(), 1, None),
        neighbor_inbound(EdgeKind::Imports, "crate::bar".into(), 1, None),
    ];
    let g = group_neighbors(&outbound, &inbound);
    assert_eq!(g.callees.len(), 2, "callees include resolved + unresolved");
    assert_eq!(g.imports.len(), 1);
    assert_eq!(g.callers.len(), 1);
    assert_eq!(g.imported_by.len(), 1);
    assert!(matches!(&g.callers[0].target, EdgeTarget::Resolved { fqdn } if fqdn == "crate::bar"));
    assert!(
        matches!(&g.imported_by[0].target, EdgeTarget::Resolved { fqdn } if fqdn == "crate::bar")
    );
    assert_eq!(target_text(&g.callees[0]), "crate::baz");
    assert_eq!(target_text(&g.callees[1]), "external::thing");
    assert!(g.tests.is_empty());
}

#[test]
fn context_with_neighbors_depth_one_omits_resolved_symbol() {
    assert_eq!(outbound_lookup(&resolved("crate::baz"), 1), None);
    let n = neighbor_outbound(EdgeKind::Calls, resolved("crate::baz"), 1, Some(sym("crate::baz")));
    assert!(n.resolved_symbol.is_none(), "depth=1 keeps resolved_symbol = None");
}

#[test]
fn context_with_neighbors_depth_two_populates_resolved_symbol_for_resolved_only() {
    assert_eq!(outbound_lookup(&resolved("crate::baz"), 2).as_deref(), Some("crate::baz"));
    assert_eq!(outbound_lookup(&unresolved("external::thing"), 2), None);
    let baz = neighbor_outbound(EdgeKind::Calls, resolved("crate::baz"), 2, Some(sym("crate::baz")));
    assert_eq!(baz.resolved_symbol.as_ref().map(|s| s.fqdn.as_str()), Some("crate::baz"));
    let ext = neighbor_outbound(EdgeKind::Calls, unresolved("external::thing"), 2, Some(sym("x")));
    assert!(ext.resolved_symbol.is_none(), "Unresolved targets stay None even at depth=2");
    assert_eq!(inbound_lookup(&"crate::bar".to_string(), 2).as_deref(), Some("crate::bar"));
    assert_eq!(inbound_lookup(&"crate::bar".to_string(), 1), None);
}

#[test]
fn context_with_neighbors_clamps_depth_above_two() {
    assert_eq!(clamp_depth(99), 2);
    assert_eq!(clamp_depth(2), 2);
    assert_eq!(clamp_depth(1), 1);
    assert_eq!(clamp_depth(0), 1);
}

#[test]
fn context_with_neighbors_skips_other_edge_kinds() {
    let outbound = vec![neighbor_outbound(EdgeKind::Implements, resolved("crate::T"), 2, None)];
    let g = group_neighbors(&outbound, &Vec::new());
    assert!(g.callees.is_empty());
    assert!(g.imports.is_empty());
    assert!(g.callers.is_empty());
    assert!(g.imported_by.is_empty());
    assert_eq!(g.depends_on.len(), 1);
    assert_eq!(target_text(&g.depends_on[0]), "crate::T");
}

#[test]
fn neighbors_tests_collects_test_like_callers_then_dependents() {
    let inbound = vec![
        neighbor_inbound(EdgeKind::References, "crate::tests::uses_it".into(), 1, None),
        neighbor_inbound(EdgeKind::Calls, "crate::main".into(), 1, None),
        neighbor_inbound(EdgeKind::Calls, "crate::check_test".into(), 1, None),
    ];
    let g = group_neighbors(&Vec::new(), &inbound);
    assert_eq!(g.tests.len(), 2);
    assert_eq!(target_text(&g.tests[0]), "crate::check_test");
    assert_eq!(target_text(&g.tests[1]), "crate::tests::uses_it");
    assert_eq!(g.dependents.len(), 1);
}

#[test]
fn neighbor_test_heuristic_conventions() {
    let t = |s: &str| neighbor_looks_like_test(&neighbor_inbound(EdgeKind::Calls, s.into(), 1, None));
    assert!(t("a::tests::b"));
    assert!(t("a::test::b"));
    assert!(t("a::b_test"));
    assert!(t("a::b_tests"));
    assert!(t("src/app.test"));
    assert!(t("src/app.spec"));
    assert!(!t("a::tests"));
    assert!(!t("a::testing::b"));
}

// ---------------------------------------------------------------------
// Stored rows
// ---------------------------------------------------------------------

#[test]
fn position_to_u32_accepts_range_and_names_field_otherwise() {
    assert_eq!(position_to_u32("start_line", 0), Ok(0));
    assert_eq!(position_to_u32("start_line", 4_294_967_295), Ok(u32::MAX));
    assert_eq!(
        position_to_u32("start_line", -1),
        Err("symbols.start_line out of u32 range: -1".to_string())
    );
    assert_eq!(
        position_to_u32("end_col", 4_294_967_296),
        Err("symbols.end_col out of u32 range: 4294967296".to_string())
    );
}

#[test]
fn symbol_location_reports_first_bad_field() {
    let ok = symbol_location("src/a.rs".into(), 1, 2, 3, 4).unwrap();
    assert_eq!((ok.start_line, ok.end_line, ok.start_col, ok.end_col), (1, 2, 3, 4));
    assert_eq!(ok.file, "src/a.rs");
    assert_eq!(
        symbol_location("f".into(), 1, -2, -3, 4).unwrap_err(),
        "symbols.end_line out of u32 range: -2"
    );
    assert_eq!(
        edge_site("f".into(), 3, -1).unwrap_err(),
        "symbols.edge_sites.col out of u32 range: -1"
    );
    assert_eq!(edge_site("f".into(), 3, 7).unwrap().col, 7);
}

#[test]
fn stored_target_enforces_exactly_one_column() {
    assert_eq!(stored_target(1, Some(9), None), Ok(StoredTarget::SymbolId(9)));
    assert_eq!(
        stored_target(1, None, Some("x::y".into())),
        Ok(StoredTarget::Unresolved("x::y".into()))
    );
    assert_eq!(
        stored_target(7, Some(9), Some("x".into())),
        Err("edges.id=7 violates XOR (to_symbol_id, to_unresolved)".to_string())
    );
    assert_eq!(
        stored_target(8, None, None),
        Err("edges.id=8 violates XOR (to_symbol_id, to_unresolved)".to_string())
    );
    assert_eq!(resolved_fqdn(9, Some("a::b".into())), Ok("a::b".to_string()));
    assert_eq!(
        resolved_fqdn(9, None),
        Err("edges.to_symbol_id=9 points to deleted symbol".to_string())
    );
}

#[test]
fn flags_and_attributes_decode_json_string_arrays() {
    assert_eq!(parse_flags_json(r#"["async","unsafe"]"#), vec!["async", "unsafe"]);
    assert_eq!(parse_flags_json("[]"), Vec::<String>::new());
    assert_eq!(parse_flags_json("not json"), Vec::<String>::new());
    assert_eq!(edge_attributes(3, r#"["a"]"#), Ok(vec!["a".to_string()]));
    let err = edge_attributes(3, "{").unwrap_err();
    assert!(err.starts_with("edges.id=3 has malformed attributes JSON: "), "{err}");
}

#[test]
fn sanitize_fts5_query_is_idempotent_on_examples() {
    for raw in ["standardoc-cli", "  a::b--c  ", "x\"y*z(1)", "", "---", "my_func2"] {
        let once = sanitize_fts5_query(raw);
        assert_eq!(sanitize_fts5_query(&once), once, "{raw:?}");
    }
}

#[test]
fn neighbor_groups_keep_every_edge() {
    let outbound = vec![
        neighbor_outbound(EdgeKind::Calls, resolved("a"), 1, None),
        neighbor_outbound(EdgeKind::UsesType, resolved("b"), 1, None),
        neighbor_outbound(EdgeKind::Imports, resolved("c"), 1, None),
        neighbor_outbound(EdgeKind::Extends, resolved("d"), 1, None),
        neighbor_outbound(EdgeKind::References, unresolved("e"), 1, None),
    ];
    let g = group_neighbors(&outbound, &Vec::new());
    assert_eq!(g.callees.len() + g.imports.len() + g.depends_on.len(), outbound.len());
    assert_eq!(g.depends_on.len(), 3);
}

#[test]
fn schema_version_parses_or_reports_the_raw_value() {
    assert_eq!(schema_version("7"), Ok(7));
    assert_eq!(schema_version("4294967295"), Ok(u32::MAX));
    assert_eq!(
        schema_version("v7"),
        Err("schema_meta.schema_version is not a u32: v7".to_string())
    );
    assert_eq!(
        schema_version("4294967296"),
        Err("schema_meta.schema_version is not a u32: 4294967296".to_string())
    );
}

fn edge(to: EdgeTarget) -> ExtractedEdge {
    ExtractedEdge { to, attributes: vec![] }
}

#[test]
fn cross_workspace_rewrite_is_idempotent_on_examples() {
    // A hit: resolved to the peer's FQDN and stamped; no second lookup.
    let mut e = edge(EdgeTarget::Unresolved { name: "other::Thing".into() });
    let c = edge_lookup(&e, "mine").expect("foreign target is looked up");
    assert_eq!(c, "other::Thing");
    apply_lookup(&mut e, c, CrossLookup::Hit { workspace_id: "p1".into(), fqdn: "other_ws::Thing".into() });
    assert_eq!(e.to, EdgeTarget::Resolved { fqdn: "other_ws::Thing".into() });
    assert_eq!(e.attributes, vec!["cross-workspace".to_string(), "peer-p1".to_string()]);
    assert_eq!(edge_lookup(&e, "mine"), None);
    // A known peer without the symbol: bridged, stamped, no second lookup.
    let mut b = edge(EdgeTarget::Resolved { fqdn: "other::Gone".into() });
    let c = edge_lookup(&b, "mine").unwrap();
    apply_lookup(&mut b, c, CrossLookup::KnownPeerMissingSymbol { workspace_id: "p1".into() });
    assert_eq!(
        b.to,
        EdgeTarget::UnresolvedBridge { bridge: "custom:cross-workspace".into(), name: "other::Gone".into() }
    );
    assert_eq!(edge_lookup(&b, "mine"), None);
    // Unknown leaves the edge; local targets are never looked up.
    let mut u = edge(EdgeTarget::Unresolved { name: "x::y".into() });
    apply_lookup(&mut u, "x::y".into(), CrossLookup::Unknown);
    assert_eq!(u, edge(EdgeTarget::Unresolved { name: "x::y".into() }));
    assert_eq!(edge_lookup(&edge(EdgeTarget::Resolved { fqdn: "mine::a".into() }), "mine"), None);
}

#[test]
fn cross_workspace_file_rewrite_is_idempotent() {
    assert_eq!(file_rewrite_prefix(Language::Rust, "mine::sub"), Some("mine".to_string()));
    assert_eq!(file_rewrite_prefix(Language::Rust, "mine"), Some("mine".to_string()));
    assert_eq!(file_rewrite_prefix(Language::Rust, "::x"), None);
    let prefix = "mine";
    let mut edges = vec![
        edge(EdgeTarget::Resolved { fqdn: "mine::local".into() }),
        edge(EdgeTarget::Unresolved { name: "other::Thing".into() }),
        edge(EdgeTarget::Resolved { fqdn: "other::Gone".into() }),
        edge(EdgeTarget::Unresolved { name: "far::away".into() }),
        edge(EdgeTarget::UnresolvedBridge { bridge: "b".into(), name: "n".into() }),
    ];
    let lookups = file_lookups(&edges, prefix);
    assert_eq!(
        lookups,
        vec![None, Some("other::Thing".to_string()), Some("other::Gone".to_string()), Some("far::away".to_string()), None]
    );
    let answer = |c: &str| match c {
        "other::Thing" => CrossLookup::Hit { workspace_id: "p1".into(), fqdn: "other_ws::Thing".into() },
        "other::Gone" => CrossLookup::KnownPeerMissingSymbol { workspace_id: "p2".into() },
        _ => CrossLookup::Unknown,
    };
    let answers: Vec<CrossLookup> =
        lookups.iter().map(|l| l.as_deref().map(answer).unwrap_or(CrossLookup::Unknown)).collect();
    rewrite_file_edges(&mut edges, prefix, answers);
    assert_eq!(edges[1].to, EdgeTarget::Resolved { fqdn: "other_ws::Thing".into() });
    assert_eq!(edges[1].attributes, vec!["cross-workspace".to_string(), "peer-p1".to_string()]);
    assert_eq!(
        edges[2].to,
        EdgeTarget::UnresolvedBridge { bridge: "custom:cross-workspace".into(), name: "other::Gone".into() }
    );
    assert_eq!(edges[3], edge(EdgeTarget::Unresolved { name: "far::away".into() }));
    let once = edges.clone();
    let lookups = file_lookups(&edges, prefix);
    assert_eq!(lookups, vec![None, None, None, Some("far::away".to_string()), None]);
    let answers: Vec<CrossLookup> =
        lookups.iter().map(|l| l.as_deref().map(answer).unwrap_or(CrossLookup::Unknown)).collect();
    rewrite_file_edges(&mut edges, prefix, answers);
    assert_eq!(edges, once);
}
