//! Checks applied to stored rows as they are read back: positions must
//! fit `u32`, an edge targets either a symbol id or an unresolved name
//! (never both, never neither), and JSON string-array columns are
//! decoded by `serde_json`.
use vstd::prelude::*;
use crate::ingest::{decimal, decimal_text};
use crate::text::{append_str, string_from_chars};
use crate::workspace::string_views;

verus! {

/// What `serde_json::from_str::<Vec<String>>` gives for a text: the
/// strings of a JSON array of strings, or the text of the parse error.
pub uninterp spec fn json_string_array(raw: Seq<char>) -> Result<Seq<Seq<char>>, Seq<char>>;

/// Decodes a JSON array of strings with `serde_json::from_str`. The
/// contract names the outcome (`json_string_array`) and claims nothing
/// else of it: which texts `serde_json` accepts and the wording of its
/// error messages are its own.
#[verifier::external_body]
pub(crate) fn json_string_list(raw: &str) -> (r: Result<Vec<String>, String>)
    ensures
        match r {
            Ok(v) => json_string_array(raw@) == Ok::<Seq<Seq<char>>, Seq<char>>(string_views(v@)),
            Err(e) => json_string_array(raw@) == Err::<Seq<Seq<char>>, Seq<char>>(e@),
        },
{
    match serde_json::from_str::<Vec<String>>(raw) {
        Ok(v) => Ok(v),
        Err(e) => Err(e.to_string()),
    }
}

/// The flags of a symbol row, given the decoding of its `flags` column:
/// the decoded strings, or none when the column did not decode.
pub fn flags_or_empty(decoded: Result<Vec<String>, String>) -> (v: Vec<String>)
    ensures
        match decoded {
            Ok(d) => v@ == d@,
            Err(_) => v@.len() == 0,
        },
{
    match decoded {
        Ok(d) => d,
        Err(_) => Vec::new(),
    }
}

/// Best-effort decoding of the `symbols.flags` column (a JSON array of
/// strings): empty when it does not decode.
pub fn parse_flags_json(raw: &str) -> (v: Vec<String>)
    ensures
        match json_string_array(raw@) {
            Ok(d) => string_views(v@) == d,
            Err(_) => v@.len() == 0,
        },
{
    flags_or_empty(json_string_list(raw))
}

/// Decimal text of a signed number.
pub open spec fn signed_decimal(v: int) -> Seq<char> {
    if v < 0 {
        seq!['-'] + decimal((-v) as nat)
    } else {
        decimal(v as nat)
    }
}

fn signed_decimal_text(v: i64) -> (s: Vec<char>)
    ensures
        s@ == signed_decimal(v as int),
{
    if v < 0 {
        let mag: u128 = (0i128 - v as i128) as u128;
        let d = decimal_text(mag);
        let mut out: Vec<char> = Vec::new();
        out.push('-');
        crate::text::push_all(&mut out, &d);
        assert(out@ =~= seq!['-'] + decimal((-v) as nat));
        out
    } else {
        decimal_text(v as u128)
    }
}

/// Error text of a stored position that does not fit `u32`.
pub open spec fn position_error(field: Seq<char>, value: int) -> Seq<char> {
    "symbols."@ + field + " out of u32 range: "@ + signed_decimal(value)
}

/// A stored position as `u32`, or the error naming the field.
pub fn position_to_u32(field: &str, value: i64) -> (r: Result<u32, String>)
    ensures
        match r {
            Ok(p) => 0 <= value <= u32::MAX && p as int == value as int,
            Err(e) => (value < 0 || value > u32::MAX) && e@ == position_error(field@, value as int),
        },
{
    if 0 <= value && value <= u32::MAX as i64 {
        Ok(value as u32)
    } else {
        let mut out: Vec<char> = Vec::new();
        append_str(&mut out, "symbols.");
        append_str(&mut out, field);
        append_str(&mut out, " out of u32 range: ");
        let d = signed_decimal_text(value);
        crate::text::push_all(&mut out, &d);
        Err(string_from_chars(out))
    }
}

/// Location of a stored symbol.
#[derive(Debug, Clone, PartialEq, Eq)]
pub struct SymbolLocation {
    pub file: String,
    pub start_line: u32,
    pub end_line: u32,
    pub start_col: u32,
    pub end_col: u32,
}

pub open spec fn fits_u32(v: i64) -> bool {
    0 <= v <= u32::MAX
}

/// The location of a symbol row: its four positions checked in the order
/// start line, end line, start column, end column; the first that does
/// not fit names the error.
pub fn symbol_location(file: String, start_line: i64, end_line: i64, start_col: i64, end_col: i64) -> (r:
    Result<SymbolLocation, String>)
    ensures
        match r {
            Ok(l) => {
                &&& fits_u32(start_line) && fits_u32(end_line) && fits_u32(start_col) && fits_u32(
                    end_col,
                )
                &&& l.file@ == file@
                &&& l.start_line == start_line && l.end_line == end_line
                &&& l.start_col == start_col && l.end_col == end_col
            },
            Err(e) => if !fits_u32(start_line) {
                e@ == position_error("start_line"@, start_line as int)
            } else if !fits_u32(end_line) {
                e@ == position_error("end_line"@, end_line as int)
            } else if !fits_u32(start_col) {
                e@ == position_error("start_col"@, start_col as int)
            } else {
                !fits_u32(end_col) && e@ == position_error("end_col"@, end_col as int)
            },
        },
{
    let sl = match position_to_u32("start_line", start_line) {
        Ok(v) => v,
        Err(e) => return Err(e),
    };
    let el = match position_to_u32("end_line", end_line) {
        Ok(v) => v,
        Err(e) => return Err(e),
    };
    let sc = match position_to_u32("start_col", start_col) {
        Ok(v) => v,
        Err(e) => return Err(e),
    };
    let ec = match position_to_u32("end_col", end_col) {
        Ok(v) => v,
        Err(e) => return Err(e),
    };
    Ok(SymbolLocation { file, start_line: sl, end_line: el, start_col: sc, end_col: ec })
}

/// One call or reference site of an edge.
#[derive(Debug, Clone, PartialEq, Eq)]
pub struct Site {
    pub file: String,
    pub line: u32,
    pub col: u32,
}

/// A stored edge site, its line checked before its column.
pub fn edge_site(file: String, line: i64, col: i64) -> (r: Result<Site, String>)
    ensures
        match r {
            Ok(s) => fits_u32(line) && fits_u32(col) && s.file@ == file@ && s.line == line
                && s.col == col,
            Err(e) => if !fits_u32(line) {
                e@ == position_error("edge_sites.line"@, line as int)
            } else {
                !fits_u32(col) && e@ == position_error("edge_sites.col"@, col as int)
            },
        },
{
    let l = match position_to_u32("edge_sites.line", line) {
        Ok(v) => v,
        Err(e) => return Err(e),
    };
    let c = match position_to_u32("edge_sites.col", col) {
        Ok(v) => v,
        Err(e) => return Err(e),
    };
    Ok(Site { file, line: l, col: c })
}

/// The target columns of a stored edge, once checked.
#[derive(Debug, PartialEq, Eq)]
pub enum StoredTarget {
    /// A resolved edge: the FQDN of this symbol id is looked up.
    SymbolId(i64),
    /// An unresolved edge and its raw name.
    Unresolved(String),
}

/// Error text of an edge whose two target columns are both set or both
/// empty.
pub open spec fn xor_error(edge_id: int) -> Seq<char> {
    "edges.id="@ + signed_decimal(edge_id) + " violates XOR (to_symbol_id, to_unresolved)"@
}

/// Error text of a resolved edge whose target row is gone.
pub open spec fn dangling_error(symbol_id: int) -> Seq<char> {
    "edges.to_symbol_id="@ + signed_decimal(symbol_id) + " points to deleted symbol"@
}

/// Checks that exactly one of an edge's target columns is set.
pub fn stored_target(edge_id: i64, to_symbol_id: Option<i64>, to_unresolved: Option<String>) -> (r:
    Result<StoredTarget, String>)
    ensures
        match (to_symbol_id, to_unresolved) {
            (Some(id), None) => r == Ok::<StoredTarget, String>(StoredTarget::SymbolId(id)),
            (None, Some(name)) => r matches Ok(StoredTarget::Unresolved(n)) && n@ == name@,
            _ => r matches Err(e) && e@ == xor_error(edge_id as int),
        },
{
    match (to_symbol_id, to_unresolved) {
        (Some(id), None) => Ok(StoredTarget::SymbolId(id)),
        (None, Some(name)) => Ok(StoredTarget::Unresolved(name)),
        _ => {
            let mut out: Vec<char> = Vec::new();
            append_str(&mut out, "edges.id=");
            let d = signed_decimal_text(edge_id);
            crate::text::push_all(&mut out, &d);
            append_str(&mut out, " violates XOR (to_symbol_id, to_unresolved)");
            Err(string_from_chars(out))
        },
    }
}

/// The FQDN of a resolved edge's target, given the lookup of its symbol
/// id: the FQDN, or the error when the row is gone.
pub fn resolved_fqdn(symbol_id: i64, looked_up: Option<String>) -> (r: Result<String, String>)
    ensures
        match looked_up {
            Some(f) => r matches Ok(x) && x@ == f@,
            None => r matches Err(e) && e@ == dangling_error(symbol_id as int),
        },
{
    match looked_up {
        Some(f) => Ok(f),
        None => {
            let mut out: Vec<char> = Vec::new();
            append_str(&mut out, "edges.to_symbol_id=");
            let d = signed_decimal_text(symbol_id);
            crate::text::push_all(&mut out, &d);
            append_str(&mut out, " points to deleted symbol");
            Err(string_from_chars(out))
        },
    }
}

/// Error text of an edge whose attributes column does not decode.
pub open spec fn attributes_error(edge_id: int, detail: Seq<char>) -> Seq<char> {
    "edges.id="@ + signed_decimal(edge_id) + " has malformed attributes JSON: "@ + detail
}

/// The attributes of a stored edge, given the decoding of its column:
/// the strings, or the error naming the edge.
pub fn attributes_or_error(edge_id: i64, decoded: Result<Vec<String>, String>) -> (r: Result<
    Vec<String>,
    String,
>)
    ensures
        match decoded {
            Ok(d) => r matches Ok(v) && v@ == d@,
            Err(m) => r matches Err(e) && e@ == attributes_error(edge_id as int, m@),
        },
{
    match decoded {
        Ok(d) => Ok(d),
        Err(m) => {
            let mut out: Vec<char> = Vec::new();
            append_str(&mut out, "edges.id=");
            let d = signed_decimal_text(edge_id);
            crate::text::push_all(&mut out, &d);
            append_str(&mut out, " has malformed attributes JSON: ");
            append_str(&mut out, m.as_str());
            Err(string_from_chars(out))
        },
    }
}

/// Decodes a stored edge's attributes column (a JSON array of strings).
pub fn edge_attributes(edge_id: i64, raw: &str) -> (r: Result<Vec<String>, String>)
    ensures
        match json_string_array(raw@) {
            Ok(d) => r matches Ok(v) && string_views(v@) == d,
            Err(m) => r matches Err(e) && e@ == attributes_error(edge_id as int, m),
        },
{
    attributes_or_error(edge_id, json_string_list(raw))
}

/// The lower-case hexadecimal digit of `n` (`0 <= n < 16`).
pub open spec fn hex_digit(n: int) -> char {
    seq!['0', '1', '2', '3', '4', '5', '6', '7', '8', '9', 'a', 'b', 'c', 'd', 'e', 'f'][n]
}

/// How `serde_json` writes one character inside a JSON string: `"` and
/// `\` behind a backslash, the five controls with a short escape as
/// `\b \t \n \f \r`, the other controls below U+0020 as `\u00XX` in
/// lower-case hex, and every other character as itself.
pub open spec fn json_escaped_char(c: char) -> Seq<char> {
    if c == '"' {
        seq!['\\', '"']
    } else if c == '\\' {
        seq!['\\', '\\']
    } else if c == '\u{8}' {
        seq!['\\', 'b']
    } else if c == '\t' {
        seq!['\\', 't']
    } else if c == '\n' {
        seq!['\\', 'n']
    } else if c == '\u{c}' {
        seq!['\\', 'f']
    } else if c == '\r' {
        seq!['\\', 'r']
    } else if (c as int) < 0x20 {
        seq!['\\', 'u', '0', '0', hex_digit((c as int) / 16), hex_digit((c as int) % 16)]
    } else {
        seq![c]
    }
}

/// The escaped characters of `s`, in order.
pub open spec fn json_escaped(s: Seq<char>) -> Seq<char>
    decreases s.len(),
{
    if s.len() == 0 {
        Seq::empty()
    } else {
        json_escaped(s.drop_last()) + json_escaped_char(s.last())
    }
}

/// `s` as a JSON string literal.
pub open spec fn json_string_literal(s: Seq<char>) -> Seq<char> {
    seq!['"'] + json_escaped(s) + seq!['"']
}

/// The string literals of `items`, separated by commas.
pub open spec fn json_array_items(items: Seq<Seq<char>>) -> Seq<char>
    decreases items.len(),
{
    if items.len() == 0 {
        Seq::empty()
    } else if items.len() == 1 {
        json_string_literal(items[0])
    } else {
        json_array_items(items.drop_last()) + seq![','] + json_string_literal(items.last())
    }
}

/// The compact JSON array text of a list of strings, as
/// `serde_json::to_string` writes it: no spaces, items in order.
pub open spec fn json_array_text(items: Seq<Seq<char>>) -> Seq<char> {
    seq!['['] + json_array_items(items) + seq![']']
}

/// Encodes a list of strings as a JSON array with `serde_json::to_string`.
/// It does not fail on a list of strings: `serde_json` documents failure
/// only for a `Serialize` impl that fails or a map with non-string keys,
/// and writing into its in-memory buffer cannot fail. The text is the
/// compact array of `json_array_text`, from `serde_json`'s escape table
/// and compact formatter.
#[verifier::external_body]
fn json_array_of(items: &[String]) -> (r: Result<String, String>)
    ensures
        r is Ok,
        r is Ok ==> r->Ok_0@ == json_array_text(string_views(items@)),
{
    match serde_json::to_string(items) {
        Ok(t) => Ok(t),
        Err(e) => Err(e.to_string()),
    }
}

/// The FQDN-set parameter of a graph symbol load (a JSON array, read by
/// SQLite's `json_each`); `None` for an empty set, which is answered
/// without a query.
pub fn graph_symbols_param(fqdns: &[String]) -> (r: Option<Result<String, String>>)
    ensures
        fqdns@.len() == 0 ==> r is None,
        fqdns@.len() > 0 ==> (r matches Some(Ok(t)) && t@ == json_array_text(string_views(fqdns@))),
{
    if fqdns.len() == 0 {
        None
    } else {
        Some(json_array_of(fqdns))
    }
}

} // verus!
