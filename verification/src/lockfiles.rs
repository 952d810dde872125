//! Lockfile-driven invalidation of cached external symbols: which
//! lockfile each ecosystem consumes, its BLAKE3 fingerprint, the
//! `schema_meta` rows that persist the fingerprints, and which
//! external-symbol origins a fingerprint change must purge.
use vstd::prelude::*;
use crate::paths::{file_name, file_name_of, path_strip_prefix};
use crate::text::{eq_lit, str_chars, string_from_chars};

verus! {

/// The npm-family lockfile the workspace actually consumes.
#[derive(Debug, Clone, Copy, PartialEq, Eq, Structural)]
pub enum NpmLockfileKind {
    PackageLockJson,
    PnpmLockYaml,
    YarnLock,
    YarnPnpCjs,
}

/// Where a cached external symbol came from (the purge key).
#[derive(Debug, Clone, Copy, PartialEq, Eq, Structural)]
pub enum SourceOrigin {
    Workspace,
    CargoRegistry,
    NodeModulesDts,
    ManualExternal,
}

impl NpmLockfileKind {
    pub open spec fn spec_name(self) -> Seq<char> {
        match self {
            NpmLockfileKind::PackageLockJson => "package-lock.json"@,
            NpmLockfileKind::PnpmLockYaml => "pnpm-lock.yaml"@,
            NpmLockfileKind::YarnLock => "yarn.lock"@,
            NpmLockfileKind::YarnPnpCjs => ".pnp.cjs"@,
        }
    }

    pub open spec fn spec_parse(s: Seq<char>) -> Option<NpmLockfileKind> {
        if s == "package-lock.json"@ {
            Some(NpmLockfileKind::PackageLockJson)
        } else if s == "pnpm-lock.yaml"@ {
            Some(NpmLockfileKind::PnpmLockYaml)
        } else if s == "yarn.lock"@ {
            Some(NpmLockfileKind::YarnLock)
        } else if s == ".pnp.cjs"@ {
            Some(NpmLockfileKind::YarnPnpCjs)
        } else {
            None
        }
    }

    /// File name of the lockfile (also its `schema_meta` tag).
    pub fn as_str(self) -> (s: &'static str)
        ensures
            s@ == self.spec_name(),
    {
        match self {
            NpmLockfileKind::PackageLockJson => "package-lock.json",
            NpmLockfileKind::PnpmLockYaml => "pnpm-lock.yaml",
            NpmLockfileKind::YarnLock => "yarn.lock",
            NpmLockfileKind::YarnPnpCjs => ".pnp.cjs",
        }
    }

    /// Inverse of [`Self::as_str`]; `None` for any other text.
    pub fn parse(s: &str) -> (r: Option<NpmLockfileKind>)
        ensures
            r == Self::spec_parse(s@),
    {
        let c = str_chars(s);
        if eq_lit(&c, "package-lock.json") {
            Some(NpmLockfileKind::PackageLockJson)
        } else if eq_lit(&c, "pnpm-lock.yaml") {
            Some(NpmLockfileKind::PnpmLockYaml)
        } else if eq_lit(&c, "yarn.lock") {
            Some(NpmLockfileKind::YarnLock)
        } else if eq_lit(&c, ".pnp.cjs") {
            Some(NpmLockfileKind::YarnPnpCjs)
        } else {
            None
        }
    }
}

proof fn lemma_lockfile_names_distinct()
    ensures
        "package-lock.json"@ != "pnpm-lock.yaml"@,
        "package-lock.json"@ != "yarn.lock"@,
        "package-lock.json"@ != ".pnp.cjs"@,
        "pnpm-lock.yaml"@ != "yarn.lock"@,
        "pnpm-lock.yaml"@ != ".pnp.cjs"@,
        "yarn.lock"@ != ".pnp.cjs"@,
{
    reveal_strlit("package-lock.json");
    reveal_strlit("pnpm-lock.yaml");
    reveal_strlit("yarn.lock");
    reveal_strlit(".pnp.cjs");
    assert("package-lock.json"@.len() != "pnpm-lock.yaml"@.len());
    assert("package-lock.json"@.len() != "yarn.lock"@.len());
    assert("package-lock.json"@.len() != ".pnp.cjs"@.len());
    assert("pnpm-lock.yaml"@.len() != "yarn.lock"@.len());
    assert("pnpm-lock.yaml"@.len() != ".pnp.cjs"@.len());
    assert("yarn.lock"@[0] != ".pnp.cjs"@[0]);
}

/// Parsing the name of a lockfile kind gives that kind back.
pub proof fn lemma_npm_kind_round_trip(k: NpmLockfileKind)
    ensures
        NpmLockfileKind::spec_parse(k.spec_name()) == Some(k),
{
    lemma_lockfile_names_distinct();
}

/// Fingerprints of the lockfiles observable at a workspace root; `None`
/// for a lockfile that does not exist.
#[derive(Debug, Clone, Default, PartialEq, Eq)]
pub struct LockfileHashes {
    pub cargo: Option<String>,
    pub npm: Option<(NpmLockfileKind, String)>,
    pub luarocks: Option<String>,
}

pub struct LockfileHashesView {
    pub cargo: Option<Seq<char>>,
    pub npm: Option<(NpmLockfileKind, Seq<char>)>,
    pub luarocks: Option<Seq<char>>,
}

pub open spec fn opt_view(o: Option<String>) -> Option<Seq<char>> {
    match o {
        Some(s) => Some(s@),
        None => None,
    }
}

pub open spec fn npm_view(o: Option<(NpmLockfileKind, String)>) -> Option<(NpmLockfileKind, Seq<char>)> {
    match o {
        Some((k, s)) => Some((k, s@)),
        None => None,
    }
}

impl View for LockfileHashes {
    type V = LockfileHashesView;

    open spec fn view(&self) -> LockfileHashesView {
        LockfileHashesView {
            cargo: opt_view(self.cargo),
            npm: npm_view(self.npm),
            luarocks: opt_view(self.luarocks),
        }
    }
}

// ---------------------------------------------------------------------
// BLAKE3 fingerprints
// ---------------------------------------------------------------------

/// The 32-byte BLAKE3 digest of `data`.
pub uninterp spec fn blake3_digest(data: Seq<u8>) -> Seq<u8>;

/// Calls `blake3::hash` and returns the digest bytes. Claims the result is
/// the named digest of the input and is 32 bytes long (`blake3::OUT_LEN`).
#[verifier::external_body]
fn blake3_digest_bytes(data: &[u8]) -> (d: Vec<u8>)
    ensures
        d@ == blake3_digest(data@),
        d@.len() == 32,
{
    blake3::hash(data).as_bytes().to_vec()
}

/// Lower-case hexadecimal digit for a value below 16.
pub open spec fn hex_digit(n: u8) -> char {
    if n < 10 {
        ((48 + n) as u8) as char
    } else {
        ((87 + n) as u8) as char
    }
}

/// Lower-case hexadecimal rendering, two digits per byte, high nibble first.
pub open spec fn hex_lower(b: Seq<u8>) -> Seq<char>
    decreases b.len(),
{
    if b.len() == 0 {
        Seq::empty()
    } else {
        hex_lower(b.drop_last()) + seq![hex_digit(b.last() / 16), hex_digit(b.last() % 16)]
    }
}

pub proof fn lemma_hex_lower_len(b: Seq<u8>)
    ensures
        hex_lower(b).len() == 2 * b.len(),
    decreases b.len(),
{
    if b.len() > 0 {
        lemma_hex_lower_len(b.drop_last());
    }
}

fn hex_digit_exec(n: u8) -> (c: char)
    requires
        n < 16,
    ensures
        c == hex_digit(n),
{
    if n < 10 {
        (48 + n) as char
    } else {
        (87 + n) as char
    }
}

/// Lower-case hex of `b` (what `blake3::Hash::to_hex` renders).
pub fn to_hex_lower(b: &[u8]) -> (s: Vec<char>)
    ensures
        s@ == hex_lower(b@),
{
    let mut out: Vec<char> = Vec::new();
    let mut i: usize = 0;
    while i < b.len()
        invariant
            i <= b.len(),
            out@ == hex_lower(b@.take(i as int)),
        decreases b.len() - i,
    {
        let byte = b[i];
        out.push(hex_digit_exec(byte / 16));
        out.push(hex_digit_exec(byte % 16));
        assert(b@.take(i + 1).drop_last() =~= b@.take(i as int));
        i += 1;
        assert(out@ =~= hex_lower(b@.take(i as int)));
    }
    assert(b@.take(b.len() as int) =~= b@);
    out
}

/// Hex fingerprint of a lockfile's content.
pub open spec fn fingerprint(data: Seq<u8>) -> Seq<char> {
    hex_lower(blake3_digest(data))
}

/// BLAKE3 of `data`, rendered as 64 lower-case hex digits.
pub fn blake3_hex(data: &[u8]) -> (s: String)
    ensures
        s@ == fingerprint(data@),
        s@.len() == 64,
{
    let d = blake3_digest_bytes(data);
    let h = to_hex_lower(&d);
    proof {
        lemma_hex_lower_len(d@);
    }
    string_from_chars(h)
}

// ---------------------------------------------------------------------
// Live fingerprints
// ---------------------------------------------------------------------

/// One npm-family lockfile as probed on disk: whether it is a regular file
/// and, when it could be read, its content.
#[derive(Debug, Clone)]
pub struct LockfileRead {
    pub is_file: bool,
    pub content: Option<Vec<u8>>,
}

/// Everything [`compute_lockfile_hashes`] reads from a workspace root.
#[derive(Debug, Clone)]
pub struct LockfileProbe {
    pub cargo_lock: Option<Vec<u8>>,
    pub pnpm_lock_yaml: LockfileRead,
    pub yarn_lock: LockfileRead,
    pub pnp_cjs: LockfileRead,
    pub package_lock_json: LockfileRead,
}

pub open spec fn opt_fingerprint(c: Option<Vec<u8>>) -> Option<Seq<char>> {
    match c {
        Some(b) => Some(fingerprint(b@)),
        None => None,
    }
}

pub open spec fn tagged(k: NpmLockfileKind, c: Option<Vec<u8>>) -> Option<(NpmLockfileKind, Seq<char>)> {
    match c {
        Some(b) => Some((k, fingerprint(b@))),
        None => None,
    }
}

/// npm lockfile selection by priority: `pnpm-lock.yaml` > `yarn.lock` >
/// `.pnp.cjs` > `package-lock.json`. The first one that is a file decides,
/// even when its read then finds nothing.
pub open spec fn live_npm(p: LockfileProbe) -> Option<(NpmLockfileKind, Seq<char>)> {
    if p.pnpm_lock_yaml.is_file {
        tagged(NpmLockfileKind::PnpmLockYaml, p.pnpm_lock_yaml.content)
    } else if p.yarn_lock.is_file {
        tagged(NpmLockfileKind::YarnLock, p.yarn_lock.content)
    } else if p.pnp_cjs.is_file {
        tagged(NpmLockfileKind::YarnPnpCjs, p.pnp_cjs.content)
    } else if p.package_lock_json.is_file {
        tagged(NpmLockfileKind::PackageLockJson, p.package_lock_json.content)
    } else {
        None
    }
}

fn hash_opt(c: &Option<Vec<u8>>) -> (r: Option<String>)
    ensures
        opt_view(r) == opt_fingerprint(*c),
{
    match c {
        Some(b) => Some(blake3_hex(b)),
        None => None,
    }
}

fn hash_tagged(k: NpmLockfileKind, c: &Option<Vec<u8>>) -> (r: Option<(NpmLockfileKind, String)>)
    ensures
        npm_view(r) == tagged(k, *c),
{
    match c {
        Some(b) => Some((k, blake3_hex(b))),
        None => None,
    }
}

/// Fingerprints of the probed lockfiles. Luarocks has no lockfile on disk,
/// so its slot is always `None` here.
pub fn compute_lockfile_hashes(probe: &LockfileProbe) -> (h: LockfileHashes)
    ensures
        h@.cargo == opt_fingerprint(probe.cargo_lock),
        h@.npm == live_npm(*probe),
        h@.luarocks is None,
{
    let cargo = hash_opt(&probe.cargo_lock);
    let npm = if probe.pnpm_lock_yaml.is_file {
        hash_tagged(NpmLockfileKind::PnpmLockYaml, &probe.pnpm_lock_yaml.content)
    } else if probe.yarn_lock.is_file {
        hash_tagged(NpmLockfileKind::YarnLock, &probe.yarn_lock.content)
    } else if probe.pnp_cjs.is_file {
        hash_tagged(NpmLockfileKind::YarnPnpCjs, &probe.pnp_cjs.content)
    } else if probe.package_lock_json.is_file {
        hash_tagged(NpmLockfileKind::PackageLockJson, &probe.package_lock_json.content)
    } else {
        None
    };
    LockfileHashes { cargo, npm, luarocks: None }
}

// ---------------------------------------------------------------------
// Persisted fingerprints (schema_meta rows)
// ---------------------------------------------------------------------

/// Value of the last row whose key is `key` and whose value is not blank
/// (blank values are the "no baseline" sentinel).
pub open spec fn last_value_for(rows: Seq<(Seq<char>, Seq<char>)>, key: Seq<char>) -> Option<Seq<char>>
    decreases rows.len(),
{
    if rows.len() == 0 {
        None
    } else if rows.last().0 == key && rows.last().1.len() > 0 {
        Some(rows.last().1)
    } else {
        last_value_for(rows.drop_last(), key)
    }
}

pub open spec fn row_views(rows: Seq<(String, String)>) -> Seq<(Seq<char>, Seq<char>)> {
    rows.map_values(|r: (String, String)| (r.0@, r.1@))
}

pub open spec fn stored_npm(hash: Option<Seq<char>>, kind_raw: Option<Seq<char>>) -> Option<(NpmLockfileKind, Seq<char>)> {
    match (hash, kind_raw) {
        (Some(h), Some(k)) => match NpmLockfileKind::spec_parse(k) {
            Some(kind) => Some((kind, h)),
            None => None,
        },
        _ => None,
    }
}

/// Baseline described by a set of `(key, value)` rows of `schema_meta`.
pub open spec fn stored_from_rows(rows: Seq<(Seq<char>, Seq<char>)>) -> LockfileHashesView {
    LockfileHashesView {
        cargo: last_value_for(rows, "external_cargo_lockfile_hash"@),
        npm: stored_npm(
            last_value_for(rows, "external_npm_lockfile_hash"@),
            last_value_for(rows, "external_npm_lockfile_kind"@),
        ),
        luarocks: last_value_for(rows, "external_luarocks_hash"@),
    }
}

fn nonblank_string(s: &String) -> (b: bool)
    ensures
        b == (s@.len() > 0),
{
    let c = str_chars(s.as_str());
    c.len() > 0
}

/// Rebuilds the cached lockfile fingerprints from `schema_meta` rows.
/// Blank values count as absent; an npm baseline needs both its hash and
/// a recognised kind; rows with other keys are ignored.
pub fn stored_hashes_from_rows(rows: &Vec<(String, String)>) -> (h: LockfileHashes)
    ensures
        h@ == stored_from_rows(row_views(rows@)),
{
    let mut cargo: Option<String> = None;
    let mut npm_hash: Option<String> = None;
    let mut npm_kind_raw: Option<String> = None;
    let mut luarocks: Option<String> = None;
    let mut i: usize = 0;
    while i < rows.len()
        invariant
            i <= rows.len(),
            opt_view(cargo) == last_value_for(row_views(rows@).take(i as int), "external_cargo_lockfile_hash"@),
            opt_view(npm_hash) == last_value_for(row_views(rows@).take(i as int), "external_npm_lockfile_hash"@),
            opt_view(npm_kind_raw) == last_value_for(row_views(rows@).take(i as int), "external_npm_lockfile_kind"@),
            opt_view(luarocks) == last_value_for(row_views(rows@).take(i as int), "external_luarocks_hash"@),
        decreases rows.len() - i,
    {
        let ghost before = row_views(rows@).take(i as int);
        let ghost after = row_views(rows@).take(i + 1);
        assert(after.drop_last() =~= before);
        assert(after.last() == (rows@[i as int].0@, rows@[i as int].1@));
        proof {
            lemma_meta_keys_distinct();
        }
        let k = &rows[i].0;
        let v = &rows[i].1;
        if nonblank_string(v) {
            let kc = str_chars(k.as_str());
            if eq_lit(&kc, "external_cargo_lockfile_hash") {
                cargo = Some(v.clone());
            } else if eq_lit(&kc, "external_npm_lockfile_hash") {
                npm_hash = Some(v.clone());
            } else if eq_lit(&kc, "external_npm_lockfile_kind") {
                npm_kind_raw = Some(v.clone());
            } else if eq_lit(&kc, "external_luarocks_hash") {
                luarocks = Some(v.clone());
            }
        }
        i += 1;
    }
    assert(row_views(rows@).take(rows.len() as int) =~= row_views(rows@));
    let npm = match (npm_hash, npm_kind_raw) {
        (Some(h), Some(k)) => match NpmLockfileKind::parse(k.as_str()) {
            Some(kind) => Some((kind, h)),
            None => None,
        },
        _ => None,
    };
    LockfileHashes { cargo, npm, luarocks }
}

pub open spec fn blank_or(o: Option<Seq<char>>) -> Seq<char> {
    match o {
        Some(s) => s,
        None => Seq::empty(),
    }
}

/// The four `schema_meta` rows that persist a baseline, in write order;
/// absent values are written blank.
pub open spec fn meta_rows(h: LockfileHashesView) -> Seq<(Seq<char>, Seq<char>)> {
    seq![
        ("external_cargo_lockfile_hash"@, blank_or(h.cargo)),
        ("external_npm_lockfile_hash"@, match h.npm { Some((_, s)) => s, None => Seq::empty() }),
        ("external_npm_lockfile_kind"@, match h.npm { Some((k, _)) => k.spec_name(), None => Seq::empty() }),
        ("external_luarocks_hash"@, blank_or(h.luarocks)),
    ]
}

fn blank_or_clone(o: &Option<String>) -> (s: String)
    ensures
        s@ == blank_or(opt_view(*o)),
{
    match o {
        Some(s) => s.clone(),
        None => String::new(),
    }
}

/// `(key, value)` pairs [`LockfileHashes`] is persisted as, in the order
/// they are written.
pub fn meta_rows_for(hashes: &LockfileHashes) -> (rows: Vec<(String, String)>)
    ensures
        row_views(rows@) == meta_rows(hashes@),
{
    let mut rows: Vec<(String, String)> = Vec::new();
    rows.push((String::from_str("external_cargo_lockfile_hash"), blank_or_clone(&hashes.cargo)));
    let (npm_hash, npm_kind) = match &hashes.npm {
        Some((k, h)) => (h.clone(), String::from_str(k.as_str())),
        None => (String::new(), String::new()),
    };
    rows.push((String::from_str("external_npm_lockfile_hash"), npm_hash));
    rows.push((String::from_str("external_npm_lockfile_kind"), npm_kind));
    rows.push((String::from_str("external_luarocks_hash"), blank_or_clone(&hashes.luarocks)));
    assert(row_views(rows@) =~= meta_rows(hashes@));
    rows
}

/// Every present fingerprint is non-blank.
pub open spec fn no_blank_values(h: LockfileHashesView) -> bool {
    &&& (h.cargo matches Some(s) ==> s.len() > 0)
    &&& (h.npm matches Some((_, s)) ==> s.len() > 0)
    &&& (h.luarocks matches Some(s) ==> s.len() > 0)
}

proof fn lemma_meta_keys_distinct()
    ensures
        "external_cargo_lockfile_hash"@ != "external_npm_lockfile_hash"@,
        "external_cargo_lockfile_hash"@ != "external_npm_lockfile_kind"@,
        "external_cargo_lockfile_hash"@ != "external_luarocks_hash"@,
        "external_npm_lockfile_hash"@ != "external_npm_lockfile_kind"@,
        "external_npm_lockfile_hash"@ != "external_luarocks_hash"@,
        "external_npm_lockfile_kind"@ != "external_luarocks_hash"@,
{
    reveal_strlit("external_cargo_lockfile_hash");
    reveal_strlit("external_npm_lockfile_hash");
    reveal_strlit("external_npm_lockfile_kind");
    reveal_strlit("external_luarocks_hash");
    assert("external_cargo_lockfile_hash"@[9] != "external_npm_lockfile_hash"@[9]);
    assert("external_cargo_lockfile_hash"@[9] != "external_npm_lockfile_kind"@[9]);
    assert("external_cargo_lockfile_hash"@[9] != "external_luarocks_hash"@[9]);
    assert("external_npm_lockfile_hash"@[22] != "external_npm_lockfile_kind"@[22]);
    assert("external_npm_lockfile_hash"@[9] != "external_luarocks_hash"@[9]);
    assert("external_npm_lockfile_kind"@[9] != "external_luarocks_hash"@[9]);
}

/// Reading back the rows written for a baseline gives that baseline
/// (fingerprints are never blank, so nothing is mistaken for absent).
pub proof fn lemma_meta_rows_round_trip(h: LockfileHashesView)
    requires
        no_blank_values(h),
    ensures
        stored_from_rows(meta_rows(h)) == h,
{
    lemma_meta_keys_distinct();
    reveal_with_fuel(last_value_for, 5);
    let rows = meta_rows(h);
    assert(rows.drop_last().drop_last().drop_last().drop_last() =~= Seq::<(Seq<char>, Seq<char>)>::empty());
    if let Some((k, s)) = h.npm {
        lemma_npm_kind_round_trip(k);
        reveal_strlit("package-lock.json");
        reveal_strlit("pnpm-lock.yaml");
        reveal_strlit("yarn.lock");
        reveal_strlit(".pnp.cjs");
        assert(k.spec_name().len() > 0);
    }
    let r = stored_from_rows(rows);
    assert(r.cargo == h.cargo);
    assert(r.luarocks == h.luarocks);
    assert(r.npm == h.npm);
}

// ---------------------------------------------------------------------
// Invalidation decisions
// ---------------------------------------------------------------------

/// Origins whose cached externals must be purged because the stored and
/// live fingerprints differ, in purge order (cargo, npm, luarocks).
pub open spec fn purge_plan(stored: LockfileHashesView, live: LockfileHashesView) -> Seq<SourceOrigin> {
    (if stored.cargo != live.cargo { seq![SourceOrigin::CargoRegistry] } else { Seq::empty() })
        + (if stored.npm != live.npm { seq![SourceOrigin::NodeModulesDts] } else { Seq::empty() })
        + (if stored.luarocks != live.luarocks { seq![SourceOrigin::ManualExternal] } else { Seq::empty() })
}

fn same_opt_string(a: &Option<String>, b: &Option<String>) -> (r: bool)
    ensures
        r == (opt_view(*a) == opt_view(*b)),
{
    match (a, b) {
        (None, None) => true,
        (Some(x), Some(y)) => crate::text::string_eq(x, y),
        _ => false,
    }
}

fn same_npm(a: &Option<(NpmLockfileKind, String)>, b: &Option<(NpmLockfileKind, String)>) -> (r: bool)
    ensures
        r == (npm_view(*a) == npm_view(*b)),
{
    match (a, b) {
        (None, None) => true,
        (Some((ka, ha)), Some((kb, hb))) => *ka == *kb && crate::text::string_eq(ha, hb),
        _ => false,
    }
}

/// Origins to purge after comparing the stored baseline with the live
/// fingerprints (the decision half of the cold-start invalidation).
pub fn origins_to_purge(stored: &LockfileHashes, live: &LockfileHashes) -> (v: Vec<SourceOrigin>)
    ensures
        v@ == purge_plan(stored@, live@),
{
    let mut v: Vec<SourceOrigin> = Vec::new();
    if !same_opt_string(&stored.cargo, &live.cargo) {
        v.push(SourceOrigin::CargoRegistry);
    }
    if !same_npm(&stored.npm, &live.npm) {
        v.push(SourceOrigin::NodeModulesDts);
    }
    if !same_opt_string(&stored.luarocks, &live.luarocks) {
        v.push(SourceOrigin::ManualExternal);
    }
    assert(v@ =~= purge_plan(stored@, live@));
    v
}

/// Once the live baseline is stored, comparing it with itself purges
/// nothing.
pub proof fn lemma_no_purge_when_unchanged(h: LockfileHashesView)
    ensures
        purge_plan(h, h).len() == 0,
{
    assert(purge_plan(h, h) =~= Seq::<SourceOrigin>::empty());
}

/// An origin is purged exactly when its lockfile's stored and live
/// fingerprints differ: cargo for the `Cargo.lock` hash, `node_modules`
/// declarations for the npm `(kind, hash)` pair (so the same lockfile
/// kind with a new hash is purged too), manual externals for the
/// luarocks hash; workspace symbols never are, and no origin is listed
/// twice.
pub proof fn lemma_purge_exactly_changed(stored: LockfileHashesView, live: LockfileHashesView)
    ensures
        purge_plan(stored, live).contains(SourceOrigin::CargoRegistry) <==> stored.cargo != live.cargo,
        purge_plan(stored, live).contains(SourceOrigin::NodeModulesDts) <==> stored.npm != live.npm,
        purge_plan(stored, live).contains(SourceOrigin::ManualExternal) <==> stored.luarocks != live.luarocks,
        !purge_plan(stored, live).contains(SourceOrigin::Workspace),
        forall|i: int, j: int| 0 <= i < j < purge_plan(stored, live).len()
            ==> #[trigger] purge_plan(stored, live)[i] != #[trigger] purge_plan(stored, live)[j],
        forall|k: NpmLockfileKind, a: Seq<char>, b: Seq<char>| a != b && stored.npm == Some((k, a)) && live.npm == Some((k, b))
            ==> purge_plan(stored, live).contains(SourceOrigin::NodeModulesDts),
{
    let c = if stored.cargo != live.cargo { seq![SourceOrigin::CargoRegistry] } else { Seq::<SourceOrigin>::empty() };
    let n = if stored.npm != live.npm { seq![SourceOrigin::NodeModulesDts] } else { Seq::<SourceOrigin>::empty() };
    let l = if stored.luarocks != live.luarocks { seq![SourceOrigin::ManualExternal] } else { Seq::<SourceOrigin>::empty() };
    let p = purge_plan(stored, live);
    assert(p == c + n + l);
    assert forall|o: SourceOrigin| p.contains(o) <==> (c.contains(o) || n.contains(o) || l.contains(o)) by {
        if p.contains(o) {
            let i = choose|i: int| 0 <= i < p.len() && p[i] == o;
            if i < c.len() {
                assert(c[i] == o);
            } else if i < c.len() + n.len() {
                assert(n[i - c.len()] == o);
            } else {
                assert(l[i - c.len() - n.len()] == o);
            }
        }
        if c.contains(o) {
            let i = choose|i: int| 0 <= i < c.len() && c[i] == o;
            assert(p[i] == o);
        }
        if n.contains(o) {
            let i = choose|i: int| 0 <= i < n.len() && n[i] == o;
            assert(p[c.len() + i] == o);
        }
        if l.contains(o) {
            let i = choose|i: int| 0 <= i < l.len() && l[i] == o;
            assert(p[c.len() + n.len() + i] == o);
        }
    }
    if stored.cargo != live.cargo {
        assert(c[0] == SourceOrigin::CargoRegistry);
    }
    if stored.npm != live.npm {
        assert(n[0] == SourceOrigin::NodeModulesDts);
    }
    if stored.luarocks != live.luarocks {
        assert(l[0] == SourceOrigin::ManualExternal);
    }
    assert forall|i: int, j: int| 0 <= i < j < p.len() implies #[trigger] p[i] != #[trigger] p[j] by {
        if i < c.len() {
            assert(p[i] == SourceOrigin::CargoRegistry);
        } else if i < c.len() + n.len() {
            assert(p[i] == SourceOrigin::NodeModulesDts);
        }
        if j < c.len() {
        } else if j < c.len() + n.len() {
            assert(p[j] == SourceOrigin::NodeModulesDts);
        } else {
            assert(p[j] == SourceOrigin::ManualExternal);
        }
    }
    assert forall|k: NpmLockfileKind, a: Seq<char>, b: Seq<char>| a != b && stored.npm == Some((k, a)) && live.npm == Some((k, b))
        implies p.contains(SourceOrigin::NodeModulesDts) by {
        assert(stored.npm != live.npm);
    }
}

/// Origin whose externals a change to this lockfile name invalidates.
pub open spec fn origin_for_lockfile_name(n: Seq<char>) -> Option<SourceOrigin> {
    if n == "Cargo.lock"@ {
        Some(SourceOrigin::CargoRegistry)
    } else if n == "package-lock.json"@ || n == "pnpm-lock.yaml"@ || n == "yarn.lock"@ || n == ".pnp.cjs"@ {
        Some(SourceOrigin::NodeModulesDts)
    } else {
        None
    }
}

pub open spec fn lockfile_origin(workspace_root: Seq<char>, changed: Seq<char>) -> Option<SourceOrigin> {
    match path_strip_prefix(changed, workspace_root) {
        None => None,
        Some(rel) => match file_name(rel) {
            None => None,
            Some(n) => origin_for_lockfile_name(n),
        },
    }
}

/// Maps a changed path below the workspace root to the origin its
/// lockfile feeds; `None` for any path that is not a tracked lockfile.
pub fn classify_lockfile_path(workspace_root: &str, changed_path: &str) -> (r: Option<SourceOrigin>)
    ensures
        r == lockfile_origin(workspace_root@, changed_path@),
{
    let rel = match crate::paths::strip_prefix_str(changed_path, workspace_root) {
        Some(r) => r,
        None => return None,
    };
    let rc = str_chars(rel.as_str());
    let name = match file_name_of(&rc) {
        Some(n) => n,
        None => return None,
    };
    if eq_lit(&name, "Cargo.lock") {
        Some(SourceOrigin::CargoRegistry)
    } else if eq_lit(&name, "package-lock.json") || eq_lit(&name, "pnpm-lock.yaml") || eq_lit(
        &name,
        "yarn.lock",
    ) || eq_lit(&name, ".pnp.cjs") {
        Some(SourceOrigin::NodeModulesDts)
    } else {
        None
    }
}

/// `PathBuf::join` of a relative name onto a root.
pub open spec fn join_path(root: Seq<char>, name: Seq<char>) -> Seq<char> {
    if root.len() == 0 {
        name
    } else if root.last() == '/' {
        root + name
    } else {
        root + seq!['/'] + name
    }
}

pub(crate) fn join_str(root: &str, name: &str) -> (s: String)
    ensures
        s@ == join_path(root@, name@),
{
    let mut r = str_chars(root);
    let n = str_chars(name);
    if r.len() == 0 {
        return string_from_chars(n);
    }
    if r[r.len() - 1] != '/' {
        r.push('/');
    }
    crate::text::push_all(&mut r, &n);
    string_from_chars(r)
}

/// The lockfile paths the watcher subscribes to, in addition to the
/// workspace tree.
pub fn tracked_lockfile_paths(workspace_root: &str) -> (v: Vec<String>)
    ensures
        v@.len() == 5,
        v@[0]@ == join_path(workspace_root@, "Cargo.lock"@),
        v@[1]@ == join_path(workspace_root@, "package-lock.json"@),
        v@[2]@ == join_path(workspace_root@, "pnpm-lock.yaml"@),
        v@[3]@ == join_path(workspace_root@, "yarn.lock"@),
        v@[4]@ == join_path(workspace_root@, ".pnp.cjs"@),
{
    let mut v: Vec<String> = Vec::new();
    v.push(join_str(workspace_root, "Cargo.lock"));
    v.push(join_str(workspace_root, "package-lock.json"));
    v.push(join_str(workspace_root, "pnpm-lock.yaml"));
    v.push(join_str(workspace_root, "yarn.lock"));
    v.push(join_str(workspace_root, ".pnp.cjs"));
    v
}

} // verus!
