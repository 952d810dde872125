use standardoc_core::call_sites::{call_sites_query, effective_call_site_limit, CallSiteFilters};
use standardoc_core::provider::ExtractError;
use standardoc_core::workspace::{
    workspace_or_primary, LinkWorkspaceError, RefreshPeerError, SetLinkDirectionError,
};

#[test]
fn link_workspace_error_path_not_found_renders_did_you_mean() {
    let err = LinkWorkspaceError::PathNotFound {
        input: "/no/such/path".into(),
        suggestions: vec!["/no/such/path1".into(), "/no/such/path2".into()],
    };
    let rendered = err.message();
    assert!(rendered.contains("did you mean"));
    assert!(rendered.contains("/no/such/path1"));
    assert!(rendered.contains("/no/such/path2"));
}

#[test]
fn link_workspace_error_path_not_found_omits_section_when_no_suggestions() {
    let err = LinkWorkspaceError::PathNotFound {
        input: "/no/such/path".into(),
        suggestions: vec![],
    };
    let rendered = err.message();
    assert!(!rendered.contains("did you mean"));
    assert!(rendered.contains("/no/such/path"));
}

#[test]
fn link_workspace_error_exact_text() {
    let err = LinkWorkspaceError::PathNotFound {
        input: "/x".into(),
        suggestions: vec!["/a".into(), "/b".into()],
    };
    assert_eq!(err.message(), "path not found: /x (did you mean: /a, /b)");
    assert_eq!(LinkWorkspaceError::Storage("db locked".into()).message(), "db locked");
}

#[test]
fn set_link_direction_and_refresh_errors_render() {
    assert_eq!(
        SetLinkDirectionError::NotFound("no-such-uuid".into()).message(),
        "workspace_id not found: no-such-uuid"
    );
    assert_eq!(SetLinkDirectionError::Storage("x".into()).message(), "storage: x");
    assert_eq!(RefreshPeerError::Extract("y".into()).message(), "extract: y");
}

#[test]
fn extract_error_messages() {
    let e = ExtractError::Parse { file: "a.rs".into(), detail: "bad".into() };
    assert_eq!(e.message(), "parse error in a.rs: bad");
    assert_eq!(ExtractError::Io("gone".into()).message(), "io error: gone");
    assert_eq!(
        ExtractError::UnsupportedLanguage { file: "x.py".into() }.message(),
        "unsupported language for x.py"
    );
}

#[test]
fn workspace_or_primary_defaults() {
    assert_eq!(workspace_or_primary(None), "primary");
    assert_eq!(workspace_or_primary(Some("w1")), "w1");
}

#[test]
fn call_site_filters_is_empty() {
    assert!(CallSiteFilters::default().is_empty());
    let f = CallSiteFilters { callee_pattern: Some("*x*".into()), ..Default::default() };
    assert!(!f.is_empty());
}

#[test]
fn call_site_limit_is_clamped() {
    assert_eq!(effective_call_site_limit(0), None);
    assert_eq!(effective_call_site_limit(3), Some(3));
    assert_eq!(effective_call_site_limit(200), Some(200));
    assert_eq!(effective_call_site_limit(5000), Some(200));
}

#[test]
fn call_sites_query_composes_filters_in_order() {
    let (sql, params) = call_sites_query(&CallSiteFilters::default());
    assert!(sql.ends_with("FROM call_sites WHERE 1=1 ORDER BY id ASC LIMIT ?"));
    assert!(params.is_empty());
    let f = CallSiteFilters {
        from_fqdn: Some("c::a".into()),
        callee_text: None,
        callee_pattern: Some("*.create".into()),
    };
    let (sql, params) = call_sites_query(&f);
    assert!(sql.ends_with(
        "WHERE 1=1 AND from_fqdn = ? AND callee_text GLOB ? ORDER BY id ASC LIMIT ?"
    ));
    assert_eq!(params, vec!["c::a".to_string(), "*.create".to_string()]);
}
