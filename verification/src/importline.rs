//! Recognizing one line of source text as an import statement: a side-effect
//! import, a default import, or a named-import list, each with its module
//! specifier. Lines that fit none of these shapes are left to stand as they
//! are by every rewriter built on top of this parser.

use vstd::prelude::*;

use crate::strutil::find_char;
use crate::strutil::find_char_from;
use crate::strutil::is_ws;
use crate::strutil::skip_ws;
use crate::strutil::skip_ws_from;
use crate::strutil::str_eq;
use crate::strutil::trim_str;
use crate::strutil::trim_ws;
use crate::strutil::word_end;
use crate::strutil::word_end_from;

verus! {

/// The parse of one line, at the specification level.
pub enum ImportShape {
    /// Not an import statement this parser recognizes.
    NotImport,
    /// `import "m";`
    SideEffect { module: Seq<char> },
    /// `import X from "m";`
    DefaultImport { binding: Seq<char>, module: Seq<char> },
    /// `import { a, b } from "m";` — `names` is the trimmed inner text.
    NamedImport { names: Seq<char>, module: Seq<char> },
}

/// The parse of one line, as executable data.
pub enum ParsedImport {
    NotImport,
    SideEffect { module: String },
    DefaultImport { binding: String, module: String },
    NamedImport { names: String, module: String },
}

/// The shape an executable parse stands for.
pub open spec fn shape_of(p: ParsedImport) -> ImportShape {
    match p {
        ParsedImport::NotImport => ImportShape::NotImport,
        ParsedImport::SideEffect { module } => ImportShape::SideEffect { module: module@ },
        ParsedImport::DefaultImport { binding, module } => ImportShape::DefaultImport {
            binding: binding@,
            module: module@,
        },
        ParsedImport::NamedImport { names, module } => ImportShape::NamedImport {
            names: names@,
            module: module@,
        },
    }
}

/// A string delimiter.
pub open spec fn quote_char(c: char) -> bool {
    c == '"' || c == '\''
}

/// A quoted module specifier starting at the quote in position `k`, followed
/// by a semicolon and nothing but whitespace: the specifier's text, if the
/// line ends that way.
pub open spec fn parse_module_at(l: Seq<char>, k: int) -> Option<Seq<char>>
    recommends
        0 <= k < l.len(),
{
    let q = l[k];
    let e = find_char_from(l, k + 1, q);
    if e < l.len() {
        let t = skip_ws_from(l, e + 1);
        if t < l.len() && l[t] == ';' && skip_ws_from(l, t + 1) == l.len() {
            Some(l.subrange(k + 1, e))
        } else {
            None
        }
    } else {
        None
    }
}

/// `from` followed by a quoted specifier and the line's end, starting at
/// position `p`: the specifier's text, if the line reads that way.
pub open spec fn parse_from_module(l: Seq<char>, p: int) -> Option<Seq<char>>
    recommends
        0 <= p <= l.len(),
{
    let f = skip_ws_from(l, p);
    if f + 4 <= l.len() && l.subrange(f, f + 4) == "from"@ && f + 4 < l.len() && (is_ws(l[f + 4])
        || quote_char(l[f + 4])) {
        let g = skip_ws_from(l, f + 4);
        if g < l.len() && quote_char(l[g]) {
            parse_module_at(l, g)
        } else {
            None
        }
    } else {
        None
    }
}

/// The parse of one line: leading whitespace, the keyword `import`, then
/// either a quoted specifier (side-effect form), a braced name list followed
/// by `from` and a specifier, or a single identifier followed by `from` and a
/// specifier; always closed by `;` and trailing whitespace only.
pub open spec fn spec_parse_import(l: Seq<char>) -> ImportShape {
    let i0 = skip_ws_from(l, 0);
    if i0 + 6 < l.len() && l.subrange(i0, i0 + 6) == "import"@ && (is_ws(l[i0 + 6]) || l[i0 + 6]
        == '{' || quote_char(l[i0 + 6])) {
        let k = skip_ws_from(l, i0 + 6);
        if k < l.len() && quote_char(l[k]) {
            match parse_module_at(l, k) {
                Some(m) => ImportShape::SideEffect { module: m },
                None => ImportShape::NotImport,
            }
        } else if k < l.len() && l[k] == '{' {
            let c = find_char_from(l, k + 1, '}');
            if c < l.len() {
                match parse_from_module(l, c + 1) {
                    Some(m) => ImportShape::NamedImport {
                        names: trim_ws(l.subrange(k + 1, c)),
                        module: m,
                    },
                    None => ImportShape::NotImport,
                }
            } else {
                ImportShape::NotImport
            }
        } else if k < l.len() {
            let w = word_end_from(l, k);
            if w > k {
                match parse_from_module(l, w) {
                    Some(m) => ImportShape::DefaultImport {
                        binding: l.subrange(k, w),
                        module: m,
                    },
                    None => ImportShape::NotImport,
                }
            } else {
                ImportShape::NotImport
            }
        } else {
            ImportShape::NotImport
        }
    } else {
        ImportShape::NotImport
    }
}

/// Reads a quoted specifier and the closing `;` starting at the quote in
/// position `k`; faithful to `parse_module_at`.
fn module_at(l: &str, k: usize) -> (r: Option<String>)
    requires
        k < l@.len(),
    ensures
        r.deep_view() == parse_module_at(l@, k as int),
{
    let n = l.unicode_len();
    let q = l.get_char(k);
    let e = find_char(l, k + 1, q);
    if e < n {
        let t = skip_ws(l, e + 1);
        if t < n && l.get_char(t) == ';' && skip_ws(l, t + 1) == n {
            Some(String::from_str(l.substring_char(k + 1, e)))
        } else {
            None
        }
    } else {
        None
    }
}

/// Reads `from` and a quoted specifier starting at position `p`; faithful to
/// `parse_from_module`.
fn from_module_at(l: &str, p: usize) -> (r: Option<String>)
    requires
        p <= l@.len(),
    ensures
        r.deep_view() == parse_from_module(l@, p as int),
{
    let n = l.unicode_len();
    let f = skip_ws(l, p);
    if n - f > 4 && str_eq(l.substring_char(f, f + 4), "from") {
        let after = l.get_char(f + 4);
        if after == ' ' || after == '\t' || after == '\r' || after == '"' || after == '\'' {
            let g = skip_ws(l, f + 4);
            if g < n {
                let gq = l.get_char(g);
                if gq == '"' || gq == '\'' {
                    return module_at(l, g);
                }
            }
            None
        } else {
            None
        }
    } else {
        None
    }
}

/// Parses one line as an import statement; faithful to `spec_parse_import`.
pub fn parse_import_line(l: &str) -> (r: ParsedImport)
    ensures
        shape_of(r) == spec_parse_import(l@),
{
    let n = l.unicode_len();
    let i0 = skip_ws(l, 0);
    if !(n - i0 > 6) {
        return ParsedImport::NotImport;
    }
    if !str_eq(l.substring_char(i0, i0 + 6), "import") {
        return ParsedImport::NotImport;
    }
    let after = l.get_char(i0 + 6);
    if !(after == ' ' || after == '\t' || after == '\r' || after == '{' || after == '"' || after
        == '\'') {
        return ParsedImport::NotImport;
    }
    let k = skip_ws(l, i0 + 6);
    if k < n && (l.get_char(k) == '"' || l.get_char(k) == '\'') {
        match module_at(l, k) {
            Some(m) => ParsedImport::SideEffect { module: m },
            None => ParsedImport::NotImport,
        }
    } else if k < n && l.get_char(k) == '{' {
        let c = find_char(l, k + 1, '}');
        if c < n {
            match from_module_at(l, c + 1) {
                Some(m) => {
                    let names = trim_str(l.substring_char(k + 1, c));
                    ParsedImport::NamedImport { names, module: m }
                },
                None => ParsedImport::NotImport,
            }
        } else {
            ParsedImport::NotImport
        }
    } else if k < n {
        let w = word_end(l, k);
        if w > k {
            match from_module_at(l, w) {
                Some(m) => {
                    let binding = String::from_str(l.substring_char(k, w));
                    ParsedImport::DefaultImport { binding, module: m }
                },
                None => ParsedImport::NotImport,
            }
        } else {
            ParsedImport::NotImport
        }
    } else {
        ParsedImport::NotImport
    }
}

} // verus!
