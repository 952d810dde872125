//! Seeding of language builtins as synthetic symbol rows.
//!
//! Builtins are grouped by language; each language gets one virtual file
//! `<builtin>/<slug>` and each builtin one symbol in it, so that the
//! synthetic FQDNs emitted by the resolvers point at real rows. Method
//! builtins are grouped the same way, with their parent type as module
//! suffix and receiver, and a `trait_method` flag for trait methods.
use vstd::prelude::*;
use crate::paths::Language;
use crate::text::{append_str, string_from_chars};

verus! {

/// Slug of a language in synthetic paths and module names.
pub open spec fn slug_of(lang: Language) -> Seq<char> {
    match lang {
        Language::Rust => "rust"@,
        Language::TypeScript => "ts"@,
        Language::JavaScript => "js"@,
        Language::Lua => "lua"@,
        Language::Vue => "vue"@,
        Language::Svelte => "svelte"@,
        Language::C => "c"@,
    }
}

pub fn lang_slug(lang: Language) -> (s: &'static str)
    ensures
        s@ == slug_of(lang),
{
    match lang {
        Language::Rust => "rust",
        Language::TypeScript => "ts",
        Language::JavaScript => "js",
        Language::Lua => "lua",
        Language::Vue => "vue",
        Language::Svelte => "svelte",
        Language::C => "c",
    }
}

/// `<builtin>/<slug>`: the virtual file holding a language's builtins.
pub fn synthetic_file_path(lang: Language) -> (p: String)
    ensures
        p@ == "<builtin>/"@ + slug_of(lang),
{
    let mut out: Vec<char> = Vec::new();
    append_str(&mut out, "<builtin>/");
    append_str(&mut out, lang_slug(lang));
    string_from_chars(out)
}

/// `<builtin>::<slug>`: the module of a language's builtins.
pub fn synthetic_module(lang: Language) -> (m: String)
    ensures
        m@ == "<builtin>::"@ + slug_of(lang),
{
    let mut out: Vec<char> = Vec::new();
    append_str(&mut out, "<builtin>::");
    append_str(&mut out, lang_slug(lang));
    string_from_chars(out)
}

/// A builtin of a language (a global, a type, a function …).
#[derive(Debug, Clone)]
pub struct BuiltinEntry {
    pub language: Language,
    pub name: String,
    pub synthetic_fqdn: String,
    /// Symbol kind as stored.
    pub kind: String,
}

/// A builtin method of a builtin type.
#[derive(Debug, Clone)]
pub struct BuiltinMethodEntry {
    pub language: Language,
    pub parent_type: String,
    pub method: String,
    pub synthetic_fqdn: String,
    /// The method belongs to a trait (`Into::into`, `Iterator::next`).
    pub is_trait: bool,
}

/// A synthetic symbol row to upsert.
#[derive(Debug, Clone, PartialEq, Eq)]
pub struct SeedSymbol {
    pub name: String,
    pub fqdn: String,
    pub kind: String,
    pub language_kind: String,
    pub module: String,
    pub file_path: String,
    pub receiver_type: Option<String>,
    pub flags: Vec<String>,
}

/// The row seeded for a builtin.
pub fn seed_symbol(entry: &BuiltinEntry) -> (s: SeedSymbol)
    ensures
        s.name@ == entry.name@,
        s.fqdn@ == entry.synthetic_fqdn@,
        s.kind@ == entry.kind@,
        s.language_kind@ == "builtin"@,
        s.module@ == "<builtin>::"@ + slug_of(entry.language),
        s.file_path@ == "<builtin>/"@ + slug_of(entry.language),
        s.receiver_type is None,
        s.flags@.len() == 0,
{
    let mut lk: Vec<char> = Vec::new();
    append_str(&mut lk, "builtin");
    SeedSymbol {
        name: entry.name.clone(),
        fqdn: entry.synthetic_fqdn.clone(),
        kind: entry.kind.clone(),
        language_kind: string_from_chars(lk),
        module: synthetic_module(entry.language),
        file_path: synthetic_file_path(entry.language),
        receiver_type: None,
        flags: Vec::new(),
    }
}

/// The row seeded for a builtin method: kind `callable`, module
/// `<builtin>::<slug>::<parent type>`, receiver the parent type, and the
/// `trait_method` flag for trait methods.
pub fn seed_method_symbol(m: &BuiltinMethodEntry) -> (s: SeedSymbol)
    ensures
        s.name@ == m.method@,
        s.fqdn@ == m.synthetic_fqdn@,
        s.kind@ == "callable"@,
        s.language_kind@ == "builtin_method"@,
        s.module@ == "<builtin>::"@ + slug_of(m.language) + "::"@ + m.parent_type@,
        s.file_path@ == "<builtin>/"@ + slug_of(m.language),
        s.receiver_type matches Some(r) && r@ == m.parent_type@,
        crate::workspace::string_views(s.flags@) == (if m.is_trait {
            seq!["trait_method"@]
        } else {
            Seq::<Seq<char>>::empty()
        }),
{
    let mut module: Vec<char> = Vec::new();
    append_str(&mut module, "<builtin>::");
    append_str(&mut module, lang_slug(m.language));
    append_str(&mut module, "::");
    append_str(&mut module, m.parent_type.as_str());
    let mut kind: Vec<char> = Vec::new();
    append_str(&mut kind, "callable");
    let mut lk: Vec<char> = Vec::new();
    append_str(&mut lk, "builtin_method");
    let mut flags: Vec<String> = Vec::new();
    if m.is_trait {
        let mut f: Vec<char> = Vec::new();
        append_str(&mut f, "trait_method");
        flags.push(string_from_chars(f));
        assert(crate::workspace::string_views(flags@) =~= seq!["trait_method"@]);
    } else {
        assert(crate::workspace::string_views(flags@) =~= Seq::<Seq<char>>::empty());
    }
    SeedSymbol {
        name: m.method.clone(),
        fqdn: m.synthetic_fqdn.clone(),
        kind: string_from_chars(kind),
        language_kind: string_from_chars(lk),
        module: string_from_chars(module),
        file_path: synthetic_file_path(m.language),
        receiver_type: Some(m.parent_type.clone()),
        flags,
    }
}

// ---------------------------------------------------------------------
// Grouping by language
// ---------------------------------------------------------------------

/// Groups are distinct languages, each holding in order the indices of
/// the entries of its language (at least one), every index is in its
/// group, and the groups come in order of their language's first entry.
pub open spec fn grouping_of(langs: Seq<Language>, groups: Seq<(Language, Seq<int>)>) -> bool {
    &&& forall|a: int, b: int| 0 <= a < b < groups.len() ==> (#[trigger] groups[a]).0 != (#[trigger] groups[b]).0
    &&& forall|g: int| 0 <= g < groups.len() ==> (#[trigger] groups[g]).1 == indices_of(langs, groups[g].0)
    &&& forall|i: int| 0 <= i < langs.len() ==> lang_in_groups(groups, #[trigger] langs[i])
    &&& forall|g: int| 0 <= g < groups.len() ==> (#[trigger] groups[g]).1.len() > 0
    &&& forall|a: int, b: int| 0 <= a < b < groups.len() ==> (#[trigger] groups[a]).1[0] < (#[trigger] groups[b]).1[0]
}

/// Some group is for `l`.
pub open spec fn lang_in_groups(groups: Seq<(Language, Seq<int>)>, l: Language) -> bool {
    exists|g: int| 0 <= g < groups.len() && (#[trigger] groups[g]).0 == l
}

/// Indices of the entries of `lang`, in order.
pub open spec fn indices_of(langs: Seq<Language>, lang: Language) -> Seq<int>
    decreases langs.len(),
{
    if langs.len() == 0 {
        Seq::empty()
    } else {
        let init = indices_of(langs.drop_last(), lang);
        if langs.last() == lang {
            init.push(langs.len() - 1)
        } else {
            init
        }
    }
}

pub open spec fn group_views(g: Seq<(Language, Vec<usize>)>) -> Seq<(Language, Seq<int>)> {
    g.map_values(|x: (Language, Vec<usize>)| (x.0, x.1@.map_values(|i: usize| i as int)))
}

/// Groups entry indices by language, languages in order of first
/// appearance.
pub fn group_by_language(langs: &[Language]) -> (groups: Vec<(Language, Vec<usize>)>)
    ensures
        grouping_of(langs@, group_views(groups@)),
{
    let mut groups: Vec<(Language, Vec<usize>)> = Vec::new();
    let mut i: usize = 0;
    assert(langs@.take(0) =~= Seq::<Language>::empty());
    while i < langs.len()
        invariant
            i <= langs.len(),
            grouping_of(langs@.take(i as int), group_views(groups@)),
        decreases langs.len() - i,
    {
        let lang = langs[i];
        let ghost pre = langs@.take(i as int);
        let ghost post = langs@.take(i + 1);
        assert(post.drop_last() =~= pre);
        assert(post.last() == lang);
        let ghost gv0 = group_views(groups@);
        let pos = find_group(&groups, lang);
        proof {
            assert forall|k: int| 0 <= k < gv0.len() implies (#[trigger] gv0[k]).0 == groups@[k].0 by {}
        }
        if let Some(g) = pos {
            let mut v = groups[g].1.clone();
            v.push(i);
            let ghost old_v = groups@[g as int].1@;
            groups.set(g, (lang, v));
            proof {
                let gv = group_views(groups@);
                assert forall|k: int| 0 <= k < gv.len() implies (#[trigger] gv[k]).1 == indices_of(post, gv[k].0) by {
                    if k == g {
                        assert(gv0[k].1 == indices_of(pre, lang));
                        assert(gv[k].1 =~= gv0[k].1.push(i as int));
                    } else {
                        assert(gv[k] == gv0[k]);
                        assert(gv0[g as int].0 == lang);
                        if k < g {
                            assert(gv0[k].0 != gv0[g as int].0);
                        } else {
                            assert(gv0[g as int].0 != gv0[k].0);
                        }
                    }
                }
                assert forall|a: int, b: int| 0 <= a < b < gv.len() implies (#[trigger] gv[a]).0 != (#[trigger] gv[b]).0 by {
                    assert(gv[a].0 == gv0[a].0);
                    assert(gv[b].0 == gv0[b].0);
                }
                assert forall|k: int| 0 <= k < gv.len() implies (#[trigger] gv[k]).1.len() > 0
                    && gv[k].1[0] == gv0[k].1[0] by {
                    if k == g {
                        assert(gv[k].1 =~= gv0[k].1.push(i as int));
                    } else {
                        assert(gv[k] == gv0[k]);
                    }
                }
                assert forall|a: int, b: int| 0 <= a < b < gv.len() implies (#[trigger] gv[a]).1[0] < (#[trigger] gv[b]).1[0] by {
                    assert(gv[a].1[0] == gv0[a].1[0]);
                    assert(gv[b].1[0] == gv0[b].1[0]);
                }
                assert forall|x: int| 0 <= x < post.len() implies lang_in_groups(gv, #[trigger] post[x]) by {
                    if x < pre.len() {
                        assert(post[x] == pre[x]);
                        assert(lang_in_groups(gv0, pre[x]));
                        let k = choose|k: int| 0 <= k < gv0.len() && (#[trigger] gv0[k]).0 == pre[x];
                        assert(gv[k].0 == gv0[k].0);
                    } else {
                        assert(gv[g as int].0 == lang);
                    }
                }
            }
        } else {
            let mut v: Vec<usize> = Vec::new();
            v.push(i);
            groups.push((lang, v));
            proof {
                let gv = group_views(groups@);
                assert forall|k: int| 0 <= k < gv.len() implies (#[trigger] gv[k]).1 == indices_of(post, gv[k].0) by {
                    if k == gv0.len() {
                        assert(indices_of(pre, lang) =~= Seq::<int>::empty()) by {
                            lemma_indices_absent(pre, lang, gv0);
                        }
                        assert(gv[k].1 =~= seq![i as int]);
                    } else {
                        assert(gv[k] == gv0[k]);
                        assert(gv0[k].0 != lang);
                    }
                }
                assert forall|a: int, b: int| 0 <= a < b < gv.len() implies (#[trigger] gv[a]).0 != (#[trigger] gv[b]).0 by {
                    assert(gv[a].0 == gv0[a].0);
                    if b < gv0.len() {
                        assert(gv[b].0 == gv0[b].0);
                    } else {
                        assert(gv[b].0 == lang);
                        assert(gv0[a].0 == groups@[a].0);
                    }
                }
                assert forall|k: int| 0 <= k < gv.len() implies (#[trigger] gv[k]).1.len() > 0 by {
                    if k < gv0.len() {
                        assert(gv[k] == gv0[k]);
                    } else {
                        assert(gv[k].1 =~= seq![i as int]);
                    }
                }
                assert forall|a: int, b: int| 0 <= a < b < gv.len() implies (#[trigger] gv[a]).1[0] < (#[trigger] gv[b]).1[0] by {
                    assert(gv[a] == gv0[a]);
                    if b < gv0.len() {
                        assert(gv[b] == gv0[b]);
                    } else {
                        assert(gv[b].1 =~= seq![i as int]);
                        lemma_indices_below(pre, gv0[a].0);
                        assert(gv0[a].1 == indices_of(pre, gv0[a].0));
                        assert(gv0[a].1.len() > 0);
                    }
                }
                assert forall|x: int| 0 <= x < post.len() implies lang_in_groups(gv, #[trigger] post[x]) by {
                    if x < pre.len() {
                        assert(post[x] == pre[x]);
                        assert(lang_in_groups(gv0, pre[x]));
                        let k = choose|k: int| 0 <= k < gv0.len() && (#[trigger] gv0[k]).0 == pre[x];
                        assert(gv[k].0 == gv0[k].0);
                    } else {
                        assert(gv[gv0.len() as int].0 == lang);
                    }
                }
            }
        }
        i += 1;
    }
    assert(langs@.take(langs.len() as int) =~= langs@);
    groups
}

fn find_group(groups: &Vec<(Language, Vec<usize>)>, lang: Language) -> (r: Option<usize>)
    ensures
        r matches Some(g) ==> g < groups@.len() && groups@[g as int].0 == lang,
        r is None ==> forall|k: int| 0 <= k < groups@.len() ==> (#[trigger] groups@[k]).0 != lang,
{
    let mut g: usize = 0;
    while g < groups.len()
        invariant
            g <= groups.len(),
            forall|k: int| 0 <= k < g ==> (#[trigger] groups@[k]).0 != lang,
        decreases groups.len() - g,
    {
        if groups[g].0 == lang {
            return Some(g);
        }
        g += 1;
    }
    None
}

/// Every index of `indices_of(langs, lang)` is an index of `langs`.
proof fn lemma_indices_below(langs: Seq<Language>, lang: Language)
    ensures
        forall|j: int| 0 <= j < indices_of(langs, lang).len() ==> 0 <= #[trigger] indices_of(langs, lang)[j] < langs.len(),
    decreases langs.len(),
{
    if langs.len() > 0 {
        let init = langs.drop_last();
        lemma_indices_below(init, lang);
        let r = indices_of(langs, lang);
        let ri = indices_of(init, lang);
        assert forall|j: int| 0 <= j < r.len() implies 0 <= #[trigger] r[j] < langs.len() by {
            if langs.last() == lang {
                assert(r == ri.push(langs.len() - 1));
                if j < ri.len() {
                    assert(r[j] == ri[j]);
                }
            } else {
                assert(r == ri);
            }
        }
    }
}

/// A language no group holds has no entry.
proof fn lemma_indices_absent(langs: Seq<Language>, lang: Language, groups: Seq<(Language, Seq<int>)>)
    requires
        forall|x: int| 0 <= x < langs.len() ==> lang_in_groups(groups, #[trigger] langs[x]),
        forall|g: int| 0 <= g < groups.len() ==> (#[trigger] groups[g]).0 != lang,
    ensures
        indices_of(langs, lang) == Seq::<int>::empty(),
    decreases langs.len(),
{
    if langs.len() > 0 {
        let init = langs.drop_last();
        assert forall|x: int| 0 <= x < init.len() implies lang_in_groups(groups, #[trigger] init[x]) by {
            assert(init[x] == langs[x]);
        }
        lemma_indices_absent(init, lang, groups);
        let x = langs.len() - 1;
        assert(lang_in_groups(groups, langs[x]));
        assert(langs.last() == langs[x]);
    }
}

} // verus!
