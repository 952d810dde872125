//! Workspace path helpers: file-name / extension inspection, relative
//! path computation and language guessing.
use vstd::prelude::*;
use crate::text::{
    chars_to_vec, eq_lit, last_index_of, replace_char, replace_char_vec, rfind_char, split_char,
    split_on, str_chars, string_from_chars, subrange_vec, views,
};

verus! {

/// Source languages the indexer knows about.
#[derive(Debug, Clone, Copy, PartialEq, Eq, Structural)]
pub enum Language {
    Rust,
    TypeScript,
    JavaScript,
    Lua,
    Vue,
    Svelte,
    C,
}

/// Last path component that is neither empty nor `.` (`Path` drops both).
pub open spec fn last_normal_segment(pieces: Seq<Seq<char>>) -> Option<Seq<char>>
    decreases pieces.len(),
{
    if pieces.len() == 0 {
        None
    } else if pieces.last().len() > 0 && pieces.last() != seq!['.'] {
        Some(pieces.last())
    } else {
        last_normal_segment(pieces.drop_last())
    }
}

/// `Path::file_name` for `/`-separated paths: the final component, unless
/// there is none or it is `..`.
pub open spec fn file_name(p: Seq<char>) -> Option<Seq<char>> {
    match last_normal_segment(split_char(p, '/')) {
        Some(l) => if l == seq!['.', '.'] { None } else { Some(l) },
        None => None,
    }
}

/// `Path::extension` applied to a file name: the text after the final
/// `.`, except when there is no `.`, the only `.` is the leading one, or
/// the name is `..`.
pub open spec fn name_extension(name: Seq<char>) -> Option<Seq<char>> {
    if name == seq!['.', '.'] {
        None
    } else {
        match last_index_of(name, '.') {
            None => None,
            Some(i) => if i == 0 { None } else { Some(name.skip(i + 1)) },
        }
    }
}

pub open spec fn extension(p: Seq<char>) -> Option<Seq<char>> {
    match file_name(p) {
        Some(n) => name_extension(n),
        None => None,
    }
}

/// Computes `Path::file_name` of `p`.
pub fn file_name_of(p: &[char]) -> (r: Option<Vec<char>>)
    ensures
        r is None <==> file_name(p@) is None,
        r matches Some(v) ==> file_name(p@) == Some(v@),
{
    let pieces = split_on(p, '/');
    let mut i: usize = pieces.len();
    proof {
        assert(views(pieces@).take(i as int) =~= views(pieces@));
    }
    while i > 0
        invariant
            i <= pieces.len(),
            views(pieces@) == split_char(p@, '/'),
            last_normal_segment(split_char(p@, '/')) == last_normal_segment(
                views(pieces@).take(i as int),
            ),
        decreases i,
    {
        let piece = &pieces[i - 1];
        let ghost t = views(pieces@).take(i as int);
        assert(t.last() == piece@);
        if piece.len() > 0 && !eq_lit(piece, ".") {
            proof {
                reveal_strlit(".");
                assert("."@ =~= seq!['.']);
                assert(piece@ != seq!['.']);
            }
            if eq_lit(piece, "..") {
                proof {
                    reveal_strlit("..");
                assert(".."@ =~= seq!['.', '.']);
                    assert(piece@ =~= seq!['.', '.']);
                }
                return None;
            }
            proof {
                reveal_strlit("..");
                assert(".."@ =~= seq!['.', '.']);
                assert(piece@ != seq!['.', '.']);
            }
            let v = chars_to_vec(piece);
            return Some(v);
        }
        proof {
            reveal_strlit(".");
                assert("."@ =~= seq!['.']);
            if piece@.len() > 0 {
                assert(piece@ =~= seq!['.']);
            }
            assert(t.drop_last() =~= views(pieces@).take(i - 1));
        }
        i -= 1;
    }
    None
}

/// Computes the extension of a file name (see [`name_extension`]).
pub fn name_extension_of(name: &[char]) -> (r: Option<Vec<char>>)
    ensures
        r is None <==> name_extension(name@) is None,
        r matches Some(v) ==> name_extension(name@) == Some(v@),
{
    if eq_lit(name, "..") {
        proof {
            reveal_strlit("..");
                assert(".."@ =~= seq!['.', '.']);
            assert(name@ =~= seq!['.', '.']);
        }
        return None;
    }
    proof {
        reveal_strlit("..");
                assert(".."@ =~= seq!['.', '.']);
        if name@ =~= seq!['.', '.'] {
            assert(false);
        }
    }
    match rfind_char(name, '.') {
        None => None,
        Some(i) => {
            if i == 0 {
                None
            } else {
                Some(subrange_vec(name, i + 1, name.len()))
            }
        },
    }
}

/// Computes `Path::extension` of `p`.
pub fn extension_of(p: &[char]) -> (r: Option<Vec<char>>)
    ensures
        r is None <==> extension(p@) is None,
        r matches Some(v) ==> extension(p@) == Some(v@),
{
    match file_name_of(p) {
        None => None,
        Some(n) => name_extension_of(&n),
    }
}

/// Extensions the language providers can extract.
pub open spec fn is_supported_ext(e: Seq<char>) -> bool {
    ||| e == "rs"@
    ||| e == "ts"@
    ||| e == "tsx"@
    ||| e == "js"@
    ||| e == "jsx"@
    ||| e == "lua"@
    ||| e == "vue"@
    ||| e == "svelte"@
    ||| e == "c"@
    ||| e == "h"@
}

pub fn supported_ext(e: &[char]) -> (b: bool)
    ensures
        b == is_supported_ext(e@),
{
    eq_lit(e, "rs") || eq_lit(e, "ts") || eq_lit(e, "tsx") || eq_lit(e, "js") || eq_lit(e, "jsx")
        || eq_lit(e, "lua") || eq_lit(e, "vue") || eq_lit(e, "svelte") || eq_lit(e, "c")
        || eq_lit(e, "h")
}

/// The path's extension is one the providers can extract.
pub open spec fn is_supported_path(p: Seq<char>) -> bool {
    extension(p) matches Some(e) && is_supported_ext(e)
}

/// `true` when the path's extension is one the providers can extract.
pub fn has_supported_extension(path: &str) -> (b: bool)
    ensures
        b == is_supported_path(path@),
{
    let p = str_chars(path);
    match extension_of(&p) {
        Some(e) => supported_ext(&e),
        None => false,
    }
}

/// What `Path::new(path).strip_prefix(base)` yields, rendered with
/// `to_string_lossy` (component-wise prefix removal of std's path model).
pub uninterp spec fn path_strip_prefix(path: Seq<char>, base: Seq<char>) -> Option<Seq<char>>;

/// Calls `std::path::Path::strip_prefix`. Claims only that the outcome is
/// the named function of the two path texts.
#[verifier::external_body]
fn strip_path_prefix(path: &str, base: &str) -> (r: Option<String>)
    ensures
        r is None <==> path_strip_prefix(path@, base@) is None,
        r matches Some(s) ==> path_strip_prefix(path@, base@) == Some(s@),
{
    std::path::Path::new(path).strip_prefix(base).ok().map(|r| r.to_string_lossy().into_owned())
}

/// What `Path::new(a) == Path::new(b)` yields (std compares the paths
/// component by component).
pub uninterp spec fn path_equal(a: Seq<char>, b: Seq<char>) -> bool;

/// Calls `PartialEq` on two `std::path::Path`s. Claims only that the
/// answer is the named function of the two path texts.
#[verifier::external_body]
pub(crate) fn same_path(a: &str, b: &str) -> (r: bool)
    ensures
        r == path_equal(a@, b@),
{
    std::path::Path::new(a) == std::path::Path::new(b)
}

/// `Path::strip_prefix`, rendered as text.
pub fn strip_prefix_str(path: &str, base: &str) -> (r: Option<String>)
    ensures
        r is None <==> path_strip_prefix(path@, base@) is None,
        r matches Some(s) ==> path_strip_prefix(path@, base@) == Some(s@),
{
    strip_path_prefix(path, base)
}

/// Workspace-relative, forward-slash form of an already-stripped path;
/// `None` for the root itself.
pub open spec fn relative_form(stripped: Option<Seq<char>>) -> Option<Seq<char>> {
    match stripped {
        None => None,
        Some(s) => {
            let t = replace_char(s, '\\', '/');
            if t.len() == 0 { None } else { Some(t) }
        },
    }
}

/// The remainder of `abs_path` below `workspace_root`, with `\` turned
/// into `/`; `None` when the path is outside the root or is the root.
pub fn to_workspace_relative(abs_path: &str, workspace_root: &str) -> (r: Option<String>)
    ensures
        r is None <==> relative_form(path_strip_prefix(abs_path@, workspace_root@)) is None,
        r matches Some(s) ==> relative_form(path_strip_prefix(abs_path@, workspace_root@)) == Some(
            s@,
        ),
{
    match strip_path_prefix(abs_path, workspace_root) {
        None => None,
        Some(rel) => {
            let chars = str_chars(rel.as_str());
            let t = replace_char_vec(&chars, '\\', '/');
            if t.len() == 0 {
                None
            } else {
                Some(string_from_chars(t))
            }
        },
    }
}

/// Language implied by the text after the last `.` of a relative path.
pub open spec fn language_for_ext(e: Seq<char>) -> Option<Language> {
    if e == "rs"@ {
        Some(Language::Rust)
    } else if e == "ts"@ || e == "tsx"@ {
        Some(Language::TypeScript)
    } else if e == "js"@ || e == "jsx"@ {
        Some(Language::JavaScript)
    } else if e == "lua"@ {
        Some(Language::Lua)
    } else if e == "vue"@ {
        Some(Language::Vue)
    } else if e == "svelte"@ {
        Some(Language::Svelte)
    } else if e == "c"@ || e == "h"@ {
        Some(Language::C)
    } else {
        None
    }
}

pub open spec fn guessed_language(rel: Seq<char>) -> Option<Language> {
    match last_index_of(rel, '.') {
        None => None,
        Some(i) => language_for_ext(rel.skip(i + 1)),
    }
}

/// Guesses a file's language from the text after its last `.`
/// (headers `.h` route to C).
pub fn guess_language(rel_path: &str) -> (r: Option<Language>)
    ensures
        r == guessed_language(rel_path@),
{
    let p = str_chars(rel_path);
    match rfind_char(&p, '.') {
        None => None,
        Some(i) => {
            let e = subrange_vec(&p, i + 1, p.len());
            if eq_lit(&e, "rs") {
                Some(Language::Rust)
            } else if eq_lit(&e, "ts") || eq_lit(&e, "tsx") {
                Some(Language::TypeScript)
            } else if eq_lit(&e, "js") || eq_lit(&e, "jsx") {
                Some(Language::JavaScript)
            } else if eq_lit(&e, "lua") {
                Some(Language::Lua)
            } else if eq_lit(&e, "vue") {
                Some(Language::Vue)
            } else if eq_lit(&e, "svelte") {
                Some(Language::Svelte)
            } else if eq_lit(&e, "c") || eq_lit(&e, "h") {
                Some(Language::C)
            } else {
                None
            }
        },
    }
}

} // verus!
