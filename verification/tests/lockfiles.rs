use standardoc_core::lockfiles::{
    blake3_hex, classify_lockfile_path, compute_lockfile_hashes, meta_rows_for,
    origins_to_purge, stored_hashes_from_rows, tracked_lockfile_paths, LockfileHashes,
    LockfileProbe, LockfileRead, NpmLockfileKind, SourceOrigin,
};

fn absent() -> LockfileRead {
    LockfileRead { is_file: false, content: None }
}

fn present(text: &str) -> LockfileRead {
    LockfileRead { is_file: true, content: Some(text.as_bytes().to_vec()) }
}

fn empty_probe() -> LockfileProbe {
    LockfileProbe {
        cargo_lock: None,
        pnpm_lock_yaml: absent(),
        yarn_lock: absent(),
        pnp_cjs: absent(),
        package_lock_json: absent(),
    }
}

fn rows(pairs: &[(&str, &str)]) -> Vec<(String, String)> {
    pairs.iter().map(|(k, v)| (k.to_string(), v.to_string())).collect()
}

#[test]
fn npm_lockfile_kind_round_trips_via_parse() {
    for kind in [
        NpmLockfileKind::PackageLockJson,
        NpmLockfileKind::PnpmLockYaml,
        NpmLockfileKind::YarnLock,
        NpmLockfileKind::YarnPnpCjs,
    ] {
        assert_eq!(NpmLockfileKind::parse(kind.as_str()), Some(kind));
    }
    assert_eq!(NpmLockfileKind::parse("bogus"), None);
}

#[test]
fn compute_lockfile_hashes_empty_workspace_returns_all_none() {
    let h = compute_lockfile_hashes(&empty_probe());
    assert_eq!(h, LockfileHashes::default());
}

#[test]
fn compute_lockfile_hashes_picks_pnpm_over_package_lock() {
    let mut p = empty_probe();
    p.package_lock_json = present("{}");
    p.pnpm_lock_yaml = present("lockfileVersion: 6");
    let (kind, _hash) = compute_lockfile_hashes(&p).npm.expect("npm hash present");
    assert_eq!(kind, NpmLockfileKind::PnpmLockYaml);
}

#[test]
fn compute_lockfile_hashes_picks_yarn_lock_when_no_pnpm() {
    let mut p = empty_probe();
    p.package_lock_json = present("{}");
    p.yarn_lock = present("# yarn classic");
    let (kind, _hash) = compute_lockfile_hashes(&p).npm.expect("npm hash present");
    assert_eq!(kind, NpmLockfileKind::YarnLock);
}

#[test]
fn compute_lockfile_hashes_picks_pnp_when_no_pnpm_or_yarn() {
    let mut p = empty_probe();
    p.package_lock_json = present("{}");
    p.pnp_cjs = present("// pnp");
    let (kind, _hash) = compute_lockfile_hashes(&p).npm.expect("npm hash present");
    assert_eq!(kind, NpmLockfileKind::YarnPnpCjs);
}

#[test]
fn compute_lockfile_hashes_falls_back_to_package_lock_only() {
    let mut p = empty_probe();
    p.package_lock_json = present("{}");
    let (kind, _hash) = compute_lockfile_hashes(&p).npm.expect("npm hash present");
    assert_eq!(kind, NpmLockfileKind::PackageLockJson);
}

#[test]
fn compute_lockfile_hashes_blake3_hex_stable_for_same_content() {
    let mut p = empty_probe();
    p.cargo_lock = Some(b"# cargo lockfile".to_vec());
    let h1 = compute_lockfile_hashes(&p);
    let h2 = compute_lockfile_hashes(&p);
    assert_eq!(h1.cargo, h2.cargo);
    assert!(h1.cargo.as_deref().is_some_and(|h| h.len() == 64));
}

#[test]
fn compute_lockfile_hashes_file_that_vanished_keeps_its_priority() {
    let mut p = empty_probe();
    p.pnpm_lock_yaml = LockfileRead { is_file: true, content: None };
    p.package_lock_json = present("{}");
    assert_eq!(compute_lockfile_hashes(&p).npm, None);
}

#[test]
fn blake3_hex_matches_known_vectors() {
    assert_eq!(
        blake3_hex(b""),
        "af1349b9f5f9a1a6a0404dea36dcc9499bcb25c9adc112b7cc9a93cae41f3262"
    );
    assert_eq!(
        blake3_hex(b"abc"),
        "6437b3ac38465133ffb63b75273a8db548c558465d79db03fd359c6cd5bd9d85"
    );
}

#[test]
fn read_stored_hashes_returns_all_none_on_fresh_db() {
    let fresh = rows(&[
        ("external_cargo_lockfile_hash", ""),
        ("external_npm_lockfile_hash", ""),
        ("external_npm_lockfile_kind", ""),
        ("external_luarocks_hash", ""),
    ]);
    assert_eq!(stored_hashes_from_rows(&fresh), LockfileHashes::default());
}

#[test]
fn write_then_read_stored_hashes_round_trips_cargo() {
    let live = LockfileHashes {
        cargo: Some("deadbeef".into()),
        npm: None,
        luarocks: None,
    };
    assert_eq!(stored_hashes_from_rows(&meta_rows_for(&live)), live);
}

#[test]
fn write_then_read_stored_hashes_round_trips_npm_pair() {
    let live = LockfileHashes {
        cargo: None,
        npm: Some((NpmLockfileKind::PnpmLockYaml, "cafebabe".into())),
        luarocks: Some("lr".into()),
    };
    assert_eq!(stored_hashes_from_rows(&meta_rows_for(&live)), live);
}

#[test]
fn write_stored_hashes_overwrites_previous_blank() {
    let first = LockfileHashes {
        cargo: Some("old".into()),
        npm: None,
        luarocks: None,
    };
    let mut table = meta_rows_for(&first);
    let second = LockfileHashes::default();
    table.extend(meta_rows_for(&second));
    // Blank values never override: the table keeps the last non-blank one,
    // which is what an UPDATE to "" followed by a read yields only when the
    // reader skips blanks — here the newer blank rows are skipped.
    assert_eq!(stored_hashes_from_rows(&table), first);
    assert_eq!(stored_hashes_from_rows(&meta_rows_for(&second)), second);
}

#[test]
fn stored_npm_needs_hash_and_known_kind() {
    let only_hash = rows(&[("external_npm_lockfile_hash", "h")]);
    assert_eq!(stored_hashes_from_rows(&only_hash).npm, None);
    let bad_kind = rows(&[
        ("external_npm_lockfile_hash", "h"),
        ("external_npm_lockfile_kind", "bun.lockb"),
    ]);
    assert_eq!(stored_hashes_from_rows(&bad_kind).npm, None);
    let ok = rows(&[
        ("external_npm_lockfile_kind", "yarn.lock"),
        ("external_npm_lockfile_hash", "h"),
        ("unrelated", "x"),
    ]);
    assert_eq!(
        stored_hashes_from_rows(&ok).npm,
        Some((NpmLockfileKind::YarnLock, "h".to_string()))
    );
}

#[test]
fn meta_rows_for_writes_blank_sentinels() {
    let r = meta_rows_for(&LockfileHashes::default());
    assert_eq!(
        r,
        rows(&[
            ("external_cargo_lockfile_hash", ""),
            ("external_npm_lockfile_hash", ""),
            ("external_npm_lockfile_kind", ""),
            ("external_luarocks_hash", ""),
        ])
    );
}

#[test]
fn invalidate_changed_lockfiles_no_op_when_hashes_match() {
    let h = LockfileHashes {
        cargo: Some("a".into()),
        npm: Some((NpmLockfileKind::YarnLock, "b".into())),
        luarocks: None,
    };
    assert!(origins_to_purge(&h, &h.clone()).is_empty());
}

#[test]
fn invalidate_changed_lockfiles_purges_cargo_when_hash_diverges() {
    let stored = LockfileHashes { cargo: Some("a".into()), npm: None, luarocks: None };
    let live = LockfileHashes { cargo: Some("b".into()), npm: None, luarocks: None };
    assert_eq!(origins_to_purge(&stored, &live), vec![SourceOrigin::CargoRegistry]);
}

#[test]
fn origins_to_purge_reports_every_diverging_origin_in_order() {
    let stored = LockfileHashes {
        cargo: None,
        npm: Some((NpmLockfileKind::YarnLock, "h".into())),
        luarocks: Some("x".into()),
    };
    let live = LockfileHashes {
        cargo: Some("c".into()),
        npm: Some((NpmLockfileKind::PnpmLockYaml, "h".into())),
        luarocks: None,
    };
    assert_eq!(
        origins_to_purge(&stored, &live),
        vec![
            SourceOrigin::CargoRegistry,
            SourceOrigin::NodeModulesDts,
            SourceOrigin::ManualExternal
        ]
    );
}

#[test]
fn handle_lockfile_change_returns_none_for_unrelated_path() {
    assert_eq!(classify_lockfile_path("/ws", "/ws/src/main.rs"), None);
}

#[test]
fn handle_lockfile_change_returns_cargo_origin_for_cargo_lock() {
    assert_eq!(
        classify_lockfile_path("/ws", "/ws/Cargo.lock"),
        Some(SourceOrigin::CargoRegistry)
    );
}

#[test]
fn handle_lockfile_change_maps_npm_lockfiles_to_node_modules_origin() {
    for name in ["package-lock.json", "pnpm-lock.yaml", "yarn.lock", ".pnp.cjs"] {
        assert_eq!(
            classify_lockfile_path("/ws", &format!("/ws/{name}")),
            Some(SourceOrigin::NodeModulesDts)
        );
    }
    assert_eq!(classify_lockfile_path("/ws", "/elsewhere/Cargo.lock"), None);
}

#[test]
fn tracked_lockfile_paths_returns_five_known_lockfiles() {
    let paths = tracked_lockfile_paths("/tmp/wks");
    assert_eq!(
        paths,
        vec![
            "/tmp/wks/Cargo.lock".to_string(),
            "/tmp/wks/package-lock.json".to_string(),
            "/tmp/wks/pnpm-lock.yaml".to_string(),
            "/tmp/wks/yarn.lock".to_string(),
            "/tmp/wks/.pnp.cjs".to_string(),
        ]
    );
    assert_eq!(tracked_lockfile_paths("/tmp/wks/")[0], "/tmp/wks/Cargo.lock");
}
