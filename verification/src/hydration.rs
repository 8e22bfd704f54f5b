//! Combining a hydration bundle into one client script: a minimal DOM-backed
//! React runtime first, then every module except the entry point in emission
//! order, and the entry point — the bootstrap — last, since it references
//! identifiers the other modules declare. Minification is a collaborator's
//! step applied afterwards, outside this crate's concern.

use vstd::prelude::*;

use crate::bundler::Bundle;
use crate::strutil::str_eq;

verus! {

/// The DOM-backed runtime that hydration scripts run against.
pub open spec fn react_runtime_text() -> Seq<char> {
    "\n// React runtime for hydration\nconst React = {\n    createElement: function(type, props, ...children) {\n        const element = document.createElement(type);\n        if (props) {\n            for (const key in props) {\n                if (key === 'className') {\n                    element.className = props[key];\n                } else if (key === 'onClick') {\n                    element.onclick = props[key];\n                } else if (key !== 'children') {\n                    element.setAttribute(key, props[key]);\n                }\n            }\n        }\n\n        const allChildren = props && props.children\n            ? [].concat(props.children, children).filter(Boolean)\n            : children.filter(Boolean);\n\n        allChildren.forEach(child => {\n            if (typeof child === 'string') {\n                element.appendChild(document.createTextNode(child));\n            } else {\n                element.appendChild(child);\n            }\n        });\n\n        return element;\n    },\n    Fragment: function(props) {\n        const fragment = document.createDocumentFragment();\n        if (props.children) {\n            const children = Array.isArray(props.children) ? props.children : [props.children];\n            children.forEach(child => {\n                if (typeof child === 'string') {\n                    fragment.appendChild(document.createTextNode(child));\n                } else {\n                    fragment.appendChild(child);\n                }\n            });\n        }\n        return fragment;\n    }\n};\n\nconst ReactDOM = {\n    hydrateRoot: function(container, element) {\n        container.innerHTML = '';\n        container.appendChild(element);\n    }\n};\n\n"@
}

/// One module's block in the combined script.
pub open spec fn module_block(path: Seq<char>, code: Seq<char>) -> Seq<char> {
    "// Module: "@ + path + "\n"@ + code + "\n\n"@
}

/// The blocks of every module except the entry point, in emission order.
pub open spec fn non_entry_part(
    mods: Seq<(Seq<char>, Seq<char>)>,
    entry: Seq<char>,
) -> Seq<char>
    decreases mods.len(),
{
    if mods.len() == 0 {
        Seq::<char>::empty()
    } else {
        (if mods[0].0 == entry {
            Seq::<char>::empty()
        } else {
            module_block(mods[0].0, mods[0].1)
        }) + non_entry_part(mods.skip(1), entry)
    }
}

/// The first module text stored under the entry key, if any.
pub open spec fn entry_code_of(
    mods: Seq<(Seq<char>, Seq<char>)>,
    entry: Seq<char>,
) -> Option<Seq<char>>
    decreases mods.len(),
{
    if mods.len() == 0 {
        None
    } else if mods[0].0 == entry {
        Some(mods[0].1)
    } else {
        entry_code_of(mods.skip(1), entry)
    }
}

/// The whole combined script: the runtime, the other modules, the entry
/// last.
pub open spec fn combined_modules_text(
    mods: Seq<(Seq<char>, Seq<char>)>,
    entry: Seq<char>,
) -> Seq<char> {
    react_runtime_text() + non_entry_part(mods, entry) + (match entry_code_of(mods, entry) {
        Some(c) => "// Entry point (hydration)\n"@ + c,
        None => Seq::<char>::empty(),
    })
}

/// Combines a bundle's modules into one script; faithful to
/// `combined_modules_text`.
pub fn combine_modules(bundle: &Bundle) -> (r: String)
    ensures
        r@ == combined_modules_text(bundle.modules.deep_view(), bundle.entry_point@),
{
    let ghost dv = bundle.modules.deep_view();
    let ghost entry = bundle.entry_point@;
    let mut out = String::new();
    out.append(
        "\n// React runtime for hydration\nconst React = {\n    createElement: function(type, props, ...children) {\n        const element = document.createElement(type);\n        if (props) {\n            for (const key in props) {\n                if (key === 'className') {\n                    element.className = props[key];\n                } else if (key === 'onClick') {\n                    element.onclick = props[key];\n                } else if (key !== 'children') {\n                    element.setAttribute(key, props[key]);\n                }\n            }\n        }\n\n        const allChildren = props && props.children\n            ? [].concat(props.children, children).filter(Boolean)\n            : children.filter(Boolean);\n\n        allChildren.forEach(child => {\n            if (typeof child === 'string') {\n                element.appendChild(document.createTextNode(child));\n            } else {\n                element.appendChild(child);\n            }\n        });\n\n        return element;\n    },\n    Fragment: function(props) {\n        const fragment = document.createDocumentFragment();\n        if (props.children) {\n            const children = Array.isArray(props.children) ? props.children : [props.children];\n            children.forEach(child => {\n                if (typeof child === 'string') {\n                    fragment.appendChild(document.createTextNode(child));\n                } else {\n                    fragment.appendChild(child);\n                }\n            });\n        }\n        return fragment;\n    }\n};\n\nconst ReactDOM = {\n    hydrateRoot: function(container, element) {\n        container.innerHTML = '';\n        container.appendChild(element);\n    }\n};\n\n",
    );
    let ghost runtime_done = out@;
    let n = bundle.modules.len();
    let mut i: usize = 0;
    proof {
        assert(dv.skip(0) =~= dv);
        assert(runtime_done + non_entry_part(dv, entry) =~= out@ + non_entry_part(dv, entry));
    }
    while i < n
        invariant
            i <= n,
            n == bundle.modules.len(),
            dv == bundle.modules.deep_view(),
            entry == bundle.entry_point@,
            runtime_done == react_runtime_text(),
            runtime_done + non_entry_part(dv, entry) == out@ + non_entry_part(
                dv.skip(i as int),
                entry,
            ),
        decreases n - i,
    {
        let ghost before = out@;
        proof {
            assert(dv[i as int].0 == bundle.modules@[i as int].0@);
            assert(dv[i as int].1 == bundle.modules@[i as int].1@);
            assert(dv.skip(i as int)[0] == dv[i as int]);
            assert(dv.skip(i as int).skip(1) =~= dv.skip(i as int + 1));
        }
        if !str_eq(bundle.modules[i].0.as_str(), bundle.entry_point.as_str()) {
            out.append("// Module: ");
            out.append(bundle.modules[i].0.as_str());
            out.append("\n");
            out.append(bundle.modules[i].1.as_str());
            out.append("\n\n");
            proof {
                reveal_strlit("\n");
                assert(out@ =~= before + module_block(dv[i as int].0, dv[i as int].1));
                assert(runtime_done + non_entry_part(dv, entry) =~= out@ + non_entry_part(
                    dv.skip(i as int + 1),
                    entry,
                ));
            }
        } else {
            proof {
                assert(runtime_done + non_entry_part(dv, entry) =~= out@ + non_entry_part(
                    dv.skip(i as int + 1),
                    entry,
                ));
            }
        }
        i += 1;
    }
    proof {
        assert(dv.skip(n as int) =~= Seq::<(Seq<char>, Seq<char>)>::empty());
        assert(non_entry_part(dv.skip(n as int), entry) =~= Seq::<char>::empty());
        assert(out@ =~= runtime_done + non_entry_part(dv, entry));
    }
    let m = bundle.modules.len();
    let mut j: usize = 0;
    proof {
        assert(entry_code_of(dv, entry) == entry_code_of(dv.skip(0), entry));
    }
    while j < m
        invariant
            j <= m,
            m == bundle.modules.len(),
            dv == bundle.modules.deep_view(),
            entry == bundle.entry_point@,
            runtime_done == react_runtime_text(),
            out@ == runtime_done + non_entry_part(dv, entry),
            entry_code_of(dv, entry) == entry_code_of(dv.skip(j as int), entry),
        decreases m - j,
    {
        proof {
            assert(dv[j as int].0 == bundle.modules@[j as int].0@);
            assert(dv[j as int].1 == bundle.modules@[j as int].1@);
            assert(dv.skip(j as int)[0] == dv[j as int]);
            assert(dv.skip(j as int).skip(1) =~= dv.skip(j as int + 1));
        }
        if str_eq(bundle.modules[j].0.as_str(), bundle.entry_point.as_str()) {
            out.append("// Entry point (hydration)\n");
            out.append(bundle.modules[j].1.as_str());
            proof {
                assert(entry_code_of(dv, entry) == Some(dv[j as int].1));
                assert(out@ =~= combined_modules_text(dv, entry));
            }
            return out;
        }
        j += 1;
    }
    proof {
        assert(dv.skip(m as int) =~= Seq::<(Seq<char>, Seq<char>)>::empty());
        assert(entry_code_of(dv, entry) is None);
        assert(out@ =~= combined_modules_text(dv, entry));
    }
    out
}

} // verus!
