//! The virtual entry: a synthesized module, not present on disk, that
//! composes the layout chain and the page into one render tree. Layouts wrap
//! outermost-first, the page receives the bound route parameters from a
//! global carrier, and the module closes with either a server-side export or
//! a hydration mount.

use vstd::prelude::*;

use crate::compiler::extract_component_name;
use crate::compiler::spec_component_name;
use crate::json::params_json;
use crate::json::params_to_json;

verus! {

/// The decimal digit characters, in value order.
pub open spec fn dec_digit(d: int) -> char {
    "0123456789"@[d]
}

/// The decimal text of a number.
pub open spec fn dec_of(n: nat) -> Seq<char>
    decreases n,
{
    if n < 10 {
        seq![dec_digit(n as int)]
    } else {
        dec_of(n / 10) + seq![dec_digit((n % 10) as int)]
    }
}

/// Writes a number in decimal; faithful to `dec_of`.
pub fn u64_to_string(n: u64) -> (r: String)
    ensures
        r@ == dec_of(n as nat),
    decreases n,
{
    proof {
        reveal_strlit("0123456789");
    }
    let digits = "0123456789";
    if n < 10 {
        let d = n as usize;
        let out = String::from_str(digits.substring_char(d, d + 1));
        proof {
            assert(out@ =~= seq![dec_digit(n as int)]);
        }
        out
    } else {
        let mut out = u64_to_string(n / 10);
        let d = (n % 10) as usize;
        out.append(digits.substring_char(d, d + 1));
        proof {
            assert(digits@.subrange(d as int, d as int + 1) =~= seq![
                dec_digit((n as nat % 10) as int),
            ]);
            assert(out@ =~= dec_of(n as nat / 10) + seq![dec_digit((n as nat % 10) as int)]);
        }
        out
    }
}

/// Each layout's source followed by its positional alias: the text of layout
/// `i` and then `const Layout<i> = <its component name>;`.
pub open spec fn layout_alias_part(srcs: Seq<Seq<char>>, i: nat) -> Seq<char>
    decreases srcs.len(),
{
    if srcs.len() == 0 {
        Seq::<char>::empty()
    } else {
        srcs[0] + "\nconst Layout"@ + dec_of(i) + " = "@ + spec_component_name(srcs[0]) + ";\n\n"@
            + layout_alias_part(srcs.skip(1), i + 1)
    }
}

/// The nested render expression: the page innermost, invoked with the
/// parameter carrier, and each layout from `n - 1` down to `k` wrapped
/// around it, so the first layout of the chain stands outermost.
pub open spec fn nested_calls(k: int, n: int) -> Seq<char>
    decreases n - k when k <= n
{
    if k >= n {
        "React.createElement(Page, { params: globalThis.__TAVO_PARAMS__ })"@
    } else {
        "React.createElement(Layout"@ + dec_of(k as nat) + ", null, "@ + nested_calls(k + 1, n)
            + ")"@
    }
}

/// The whole virtual entry: UI-library imports, the aliased layouts, the
/// aliased page, the serialized parameter carrier, the wrapper function, and
/// the closing stanza — a hydration mount or a server-side export.
pub open spec fn virtual_entry_text(
    layout_srcs: Seq<Seq<char>>,
    page_src: Seq<char>,
    ps: Seq<(Seq<char>, Seq<char>)>,
    hydrate: bool,
) -> Seq<char> {
    "import React from 'react';\nimport ReactDOM from 'react-dom';\n\n"@ + layout_alias_part(
        layout_srcs,
        0,
    ) + page_src + "\nconst Page = "@ + spec_component_name(page_src) + ";\n\n"@
        + "globalThis.__TAVO_PARAMS__ = "@ + params_json(ps) + ";\n\n"@
        + "function AppRoot() {\n  return "@ + nested_calls(0, layout_srcs.len() as int)
        + ";\n}\n"@ + (if hydrate {
        "const rootElement = document.getElementById('root');\nif (rootElement) {\n  ReactDOM.hydrateRoot(rootElement, React.createElement(AppRoot));\n}\n"@
    } else {
        "globalThis.AppRoot = AppRoot;\n"@
    })
}

/// Synthesizes the virtual entry for a resolved route; faithful to
/// `virtual_entry_text`.
pub fn compose_virtual_entry(
    layout_sources: &Vec<String>,
    page_source: &str,
    params: &Vec<(String, String)>,
    hydrate: bool,
) -> (r: String)
    ensures
        r@ == virtual_entry_text(
            layout_sources.deep_view(),
            page_source@,
            params.deep_view(),
            hydrate,
        ),
{
    let ghost dv = layout_sources.deep_view();
    let mut out = String::new();
    out.append("import React from 'react';\nimport ReactDOM from 'react-dom';\n\n");
    let ghost header_done = out@;
    let n = layout_sources.len();
    let mut i: usize = 0;
    proof {
        assert(dv.skip(0) =~= dv);
        assert(header_done + layout_alias_part(dv, 0) =~= out@ + layout_alias_part(dv, 0));
    }
    while i < n
        invariant
            i <= n,
            n == layout_sources.len(),
            dv == layout_sources.deep_view(),
            header_done
                == "import React from 'react';\nimport ReactDOM from 'react-dom';\n\n"@,
            header_done + layout_alias_part(dv, 0) == out@ + layout_alias_part(
                dv.skip(i as int),
                i as nat,
            ),
        decreases n - i,
    {
        let ghost before = out@;
        out.append(layout_sources[i].as_str());
        out.append("\nconst Layout");
        let num = u64_to_string(i as u64);
        out.append(num.as_str());
        out.append(" = ");
        let name = extract_component_name(layout_sources[i].as_str());
        out.append(name.as_str());
        out.append(";\n\n");
        proof {
            assert(dv[i as int] == layout_sources@[i as int]@);
            assert(dv.skip(i as int)[0] == dv[i as int]);
            assert(dv.skip(i as int).skip(1) =~= dv.skip(i as int + 1));
            assert(out@ =~= before + dv[i as int] + "\nconst Layout"@ + dec_of(i as nat) + " = "@
                + spec_component_name(dv[i as int]) + ";\n\n"@);
            assert(header_done + layout_alias_part(dv, 0) =~= out@ + layout_alias_part(
                dv.skip(i as int + 1),
                i as nat + 1,
            ));
        }
        i += 1;
    }
    proof {
        assert(dv.skip(n as int) =~= Seq::<Seq<char>>::empty());
        assert(layout_alias_part(dv.skip(n as int), n as nat) =~= Seq::<char>::empty());
        assert(out@ =~= header_done + layout_alias_part(dv, 0));
    }
    out.append(page_source);
    out.append("\nconst Page = ");
    let page_name = extract_component_name(page_source);
    out.append(page_name.as_str());
    out.append(";\n\n");
    out.append("globalThis.__TAVO_PARAMS__ = ");
    let json = params_to_json(params);
    out.append(json.as_str());
    out.append(";\n\n");
    out.append("function AppRoot() {\n  return ");
    let mut call = String::from_str(
        "React.createElement(Page, { params: globalThis.__TAVO_PARAMS__ })",
    );
    let mut k = n;
    while k > 0
        invariant
            k <= n,
            call@ == nested_calls(k as int, n as int),
        decreases k,
    {
        k -= 1;
        let mut wrapped = String::new();
        wrapped.append("React.createElement(Layout");
        let num = u64_to_string(k as u64);
        wrapped.append(num.as_str());
        wrapped.append(", null, ");
        wrapped.append(call.as_str());
        wrapped.append(")");
        proof {
            assert(wrapped@ =~= "React.createElement(Layout"@ + dec_of(k as nat) + ", null, "@
                + nested_calls(k as int + 1, n as int) + ")"@);
        }
        call = wrapped;
    }
    out.append(call.as_str());
    out.append(";\n}\n");
    if hydrate {
        out.append(
            "const rootElement = document.getElementById('root');\nif (rootElement) {\n  ReactDOM.hydrateRoot(rootElement, React.createElement(AppRoot));\n}\n",
        );
    } else {
        out.append("globalThis.AppRoot = AppRoot;\n");
    }
    proof {
        assert(out@ =~= virtual_entry_text(dv, page_source@, params.deep_view(), hydrate));
    }
    out
}

} // verus!
