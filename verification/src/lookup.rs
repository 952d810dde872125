//! Symbol lookup used by prose auto-linking: the workspace's own FQDNs
//! and the file where a symbol is defined.
use vstd::prelude::*;

verus! {

/// Most FQDNs handed to the linker; larger workspaces fall back to
/// frontmatter-only linking.
pub const WORKSPACE_FQDN_LIMIT: usize = 50_000;

/// One indexed symbol of the primary workspace, in FQDN order.
#[derive(Debug, Clone)]
pub struct SymbolRef {
    pub fqdn: String,
    pub file: String,
    pub is_external: bool,
}

/// Lookup over the primary workspace's symbols.
pub struct CoreSymbolLookup {
    symbols: Vec<SymbolRef>,
}

pub type SymbolRefView = (Seq<char>, Seq<char>, bool);

pub open spec fn symbol_views(s: Seq<SymbolRef>) -> Seq<SymbolRefView> {
    s.map_values(|r: SymbolRef| (r.fqdn@, r.file@, r.is_external))
}

/// FQDNs of the non-external symbols, in order.
pub open spec fn workspace_fqdns_of(s: Seq<SymbolRefView>) -> Seq<Seq<char>>
    decreases s.len(),
{
    if s.len() == 0 {
        Seq::empty()
    } else {
        let init = workspace_fqdns_of(s.drop_last());
        if s.last().2 {
            init
        } else {
            init.push(s.last().0)
        }
    }
}

/// The file of the first symbol with this FQDN.
pub open spec fn def_site_of(s: Seq<SymbolRefView>, fqdn: Seq<char>) -> Option<Seq<char>>
    decreases s.len(),
{
    if s.len() == 0 {
        None
    } else if s[0].0 == fqdn {
        Some(s[0].1)
    } else {
        def_site_of(s.drop_first(), fqdn)
    }
}

impl View for CoreSymbolLookup {
    type V = Seq<SymbolRefView>;

    closed spec fn view(&self) -> Seq<SymbolRefView> {
        symbol_views(self.symbols@)
    }
}

impl CoreSymbolLookup {
    pub fn new(symbols: Vec<SymbolRef>) -> (l: Self)
        ensures
            l@ == symbol_views(symbols@),
    {
        CoreSymbolLookup { symbols }
    }

    /// The workspace's own FQDNs (external symbols excluded), at most
    /// [`WORKSPACE_FQDN_LIMIT`] of them.
    pub fn workspace_fqdns(&self) -> (v: Vec<String>)
        ensures
            crate::workspace::string_views(v@) == {
                let all = workspace_fqdns_of(self@);
                if all.len() <= WORKSPACE_FQDN_LIMIT {
                    all
                } else {
                    all.take(WORKSPACE_FQDN_LIMIT as int)
                }
            },
    {
        let ghost sv = self@;
        let mut v: Vec<String> = Vec::new();
        let mut i: usize = 0;
        assert(sv.take(0) =~= Seq::<SymbolRefView>::empty());
        while i < self.symbols.len() && v.len() < WORKSPACE_FQDN_LIMIT
            invariant
                i <= self.symbols.len(),
                sv == self@,
                v@.len() <= WORKSPACE_FQDN_LIMIT,
                crate::workspace::string_views(v@) == workspace_fqdns_of(sv.take(i as int)),
            decreases self.symbols.len() - i,
        {
            let s = &self.symbols[i];
            assert(sv.take(i + 1).drop_last() =~= sv.take(i as int));
            assert(sv.take(i + 1).last() == sv[i as int]);
            if !s.is_external {
                let ghost before = crate::workspace::string_views(v@);
                v.push(s.fqdn.clone());
                assert(crate::workspace::string_views(v@) =~= before.push(s.fqdn@));
            }
            i += 1;
        }
        proof {
            lemma_fqdns_prefix(sv, i as int);
            if i == self.symbols.len() {
                assert(sv.take(i as int) =~= sv);
            }
            let all = workspace_fqdns_of(sv);
            if v@.len() == WORKSPACE_FQDN_LIMIT {
                assert(all.take(WORKSPACE_FQDN_LIMIT as int) =~= workspace_fqdns_of(sv.take(i as int)));
            }
        }
        v
    }

    /// The file defining `fqdn`, if it is indexed.
    pub fn def_site_path(&self, fqdn: &str) -> (r: Option<String>)
        ensures
            match r {
                Some(f) => def_site_of(self@, fqdn@) == Some(f@),
                None => def_site_of(self@, fqdn@) is None,
            },
    {
        let ghost sv = self@;
        let target = crate::text::str_chars(fqdn);
        let mut i: usize = 0;
        assert(sv.skip(0) =~= sv);
        while i < self.symbols.len()
            invariant
                i <= self.symbols.len(),
                sv == self@,
                target@ == fqdn@,
                def_site_of(sv, fqdn@) == def_site_of(sv.skip(i as int), fqdn@),
            decreases self.symbols.len() - i,
        {
            let s = &self.symbols[i];
            assert(sv.skip(i as int)[0] == sv[i as int]);
            assert(sv.skip(i as int).drop_first() =~= sv.skip(i + 1));
            let f = crate::text::str_chars(s.fqdn.as_str());
            if crate::text::seq_eq(&f, &target) {
                return Some(s.file.clone());
            }
            i += 1;
        }
        None
    }
}

/// The FQDN list of a prefix is a prefix of the full list.
proof fn lemma_fqdns_prefix(s: Seq<SymbolRefView>, i: int)
    requires
        0 <= i <= s.len(),
    ensures
        workspace_fqdns_of(s.take(i)).len() <= workspace_fqdns_of(s).len(),
        workspace_fqdns_of(s) .take(workspace_fqdns_of(s.take(i)).len() as int) == workspace_fqdns_of(s.take(i)),
    decreases s.len() - i,
{
    if i < s.len() {
        lemma_fqdns_prefix(s, i + 1);
        assert(s.take(i + 1).drop_last() =~= s.take(i));
        let a = workspace_fqdns_of(s.take(i));
        let b = workspace_fqdns_of(s.take(i + 1));
        let all = workspace_fqdns_of(s);
        assert(all.take(a.len() as int) =~= b.take(a.len() as int));
    } else {
        assert(s.take(i) =~= s);
    }
}

} // verus!
