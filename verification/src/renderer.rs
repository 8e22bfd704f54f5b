//! Rendering without an execution engine: rewriting UI-library imports to
//! the globals a runtime pre-supplies, and the placeholder documents that
//! stand in when no JavaScript engine runs — including the degraded shell a
//! failed render falls back to.

use vstd::prelude::*;

use crate::compiler::CompiledComponent;
use crate::error::SSRError;
use crate::importline::parse_import_line;
use crate::importline::spec_parse_import;
use crate::importline::ImportShape;
use crate::importline::ParsedImport;
use crate::strutil::join_chars;
use crate::strutil::join_str;
use crate::strutil::split_chars;
use crate::strutil::split_str;
use crate::strutil::str_eq;

verus! {

/// What one line becomes when imports are redirected to pre-supplied
/// globals: the known UI-library imports become `const` bindings off
/// `globalThis`, any other import vanishes, and every other line stands.
pub open spec fn global_line(l: Seq<char>) -> Option<Seq<char>> {
    match spec_parse_import(l) {
        ImportShape::NotImport => Some(l),
        ImportShape::SideEffect { module } => None,
        ImportShape::DefaultImport { binding, module } => {
            if binding == "React"@ && module == "react"@ {
                Some("const React = globalThis.React;"@)
            } else if binding == "ReactDOMServer"@ && module == "react-dom/server"@ {
                Some("const ReactDOMServer = globalThis.ReactDOMServer;"@)
            } else {
                None
            }
        },
        ImportShape::NamedImport { names, module } => {
            if module == "react"@ {
                Some("const { "@ + names + " } = globalThis.React;"@)
            } else {
                None
            }
        },
    }
}

/// The kept lines after redirecting imports, in order.
pub open spec fn global_lines(ls: Seq<Seq<char>>) -> Seq<Seq<char>>
    decreases ls.len(),
{
    if ls.len() == 0 {
        Seq::<Seq<char>>::empty()
    } else {
        (match global_line(ls[0]) {
            Some(l) => seq![l],
            None => Seq::<Seq<char>>::empty(),
        }) + global_lines(ls.skip(1))
    }
}

pub proof fn lemma_global_lines_snoc(ls: Seq<Seq<char>>)
    requires
        ls.len() >= 1,
    ensures
        global_lines(ls) == global_lines(ls.drop_last()) + (match global_line(ls.last()) {
            Some(l) => seq![l],
            None => Seq::<Seq<char>>::empty(),
        }),
    decreases ls.len(),
{
    let tail = match global_line(ls.last()) {
        Some(l) => seq![l],
        None => Seq::<Seq<char>>::empty(),
    };
    if ls.len() == 1 {
        assert(global_lines(ls.skip(1)) =~= Seq::<Seq<char>>::empty());
        assert(global_lines(ls.drop_last()) =~= Seq::<Seq<char>>::empty());
        assert(global_lines(ls) =~= global_lines(ls.drop_last()) + tail);
    } else {
        lemma_global_lines_snoc(ls.skip(1));
        assert(ls.skip(1).drop_last() =~= ls.drop_last().skip(1));
        assert(ls.skip(1).last() == ls.last());
        assert(ls.drop_last()[0] == ls[0]);
        assert(global_lines(ls) =~= global_lines(ls.drop_last()) + tail);
    }
}

/// A module's text with its imports redirected, line by line.
pub open spec fn spec_convert_globals(code: Seq<char>) -> Seq<char> {
    join_chars(global_lines(split_chars(code, '\n')), '\n')
}

/// Code inside an HTML comment block, with every `*/` disarmed.
pub open spec fn escape_comment_end(s: Seq<char>) -> Seq<char>
    decreases s.len(),
{
    if s.len() == 0 {
        Seq::<char>::empty()
    } else if s.len() >= 2 && s[0] == '*' && s[1] == '/' {
        seq!['*', '\\', '/'] + escape_comment_end(s.skip(2))
    } else {
        seq![s[0]] + escape_comment_end(s.skip(1))
    }
}

/// Disarms comment terminators; faithful to `escape_comment_end`.
pub fn escape_comment_ends(s: &str) -> (r: String)
    ensures
        r@ == escape_comment_end(s@),
{
    let n = s.unicode_len();
    let mut out = String::new();
    let mut i: usize = 0;
    proof {
        assert(s@.skip(0) =~= s@);
        assert(escape_comment_end(s@) =~= out@ + escape_comment_end(s@));
    }
    while i < n
        invariant
            i <= n,
            n == s@.len(),
            escape_comment_end(s@) == out@ + escape_comment_end(s@.skip(i as int)),
        decreases n - i,
    {
        let ghost before = out@;
        let ghost tail = s@.skip(i as int);
        if s.get_char(i) == '*' && i + 1 < n && s.get_char(i + 1) == '/' {
            out.append("*\\/");
            proof {
                reveal_strlit("*\\/");
                assert(tail[0] == '*' && tail[1] == '/');
                assert(tail.skip(2) =~= s@.skip(i as int + 2));
                assert(out@ =~= before + seq!['*', '\\', '/']);
                assert(escape_comment_end(s@) =~= out@ + escape_comment_end(
                    s@.skip(i as int + 2),
                ));
            }
            i += 2;
        } else {
            out.append(s.substring_char(i, i + 1));
            proof {
                assert(s@.subrange(i as int, i as int + 1) =~= seq![tail[0]]);
                assert(tail.skip(1) =~= s@.skip(i as int + 1));
                assert(!(tail.len() >= 2 && tail[0] == '*' && tail[1] == '/'));
                assert(out@ =~= before + seq![tail[0]]);
                assert(escape_comment_end(s@) =~= out@ + escape_comment_end(
                    s@.skip(i as int + 1),
                ));
            }
            i += 1;
        }
    }
    proof {
        assert(s@.skip(n as int) =~= Seq::<char>::empty());
        assert(escape_comment_end(s@.skip(n as int)) =~= Seq::<char>::empty());
        assert(out@ =~= escape_comment_end(s@));
    }
    out
}

/// The component name a compiled route renders: the innermost layout's, or
/// the default when the chain is empty.
pub open spec fn rendered_component_name(c: CompiledComponent) -> Seq<char> {
    if c.layouts@.len() > 0 {
        c.layouts@.last().component_name@
    } else {
        "DefaultComponent"@
    }
}

/// A renderer that works on text alone: it prepares component code for an
/// engine by redirecting imports to pre-supplied globals, and emits
/// placeholder documents where the engine itself is out of reach.
pub struct SSRRenderer {
    pub ready: bool,
}

impl SSRRenderer {
    /// A fresh renderer; never fails.
    pub fn new() -> (r: Result<SSRRenderer, SSRError>)
        ensures
            r matches Ok(renderer) && renderer.ready,
    {
        Ok(SSRRenderer { ready: true })
    }

    /// Redirects ES-module imports to the globals the runtime pre-supplies:
    /// a default React import, a named React import list, and the server
    /// renderer each become `const` bindings, every other import is dropped,
    /// and all remaining lines stand untouched.
    pub fn convert_imports_to_globals(&self, js_code: &str) -> (r: Result<String, SSRError>)
        ensures
            r matches Ok(c) && c@ == spec_convert_globals(js_code@),
    {
        let lines = split_str(js_code, '\n');
        let ghost lv = lines.deep_view();
        let mut kept: Vec<String> = Vec::new();
        proof {
            assert(kept.deep_view() =~= global_lines(lv.take(0)));
            assert(lv.take(0) =~= Seq::<Seq<char>>::empty());
        }
        let n = lines.len();
        let mut i: usize = 0;
        while i < n
            invariant
                i <= n,
                n == lines.len(),
                lv == lines.deep_view(),
                kept.deep_view() == global_lines(lv.take(i as int)),
            decreases n - i,
        {
            let ghost prev = kept.deep_view();
            proof {
                assert(lv[i as int] == lines@[i as int]@);
            }
            let line = &lines[i];
            let parsed = parse_import_line(line.as_str());
            match parsed {
                ParsedImport::NotImport => {
                    let l = line.clone();
                    kept.push(l);
                    proof {
                        assert(kept.deep_view() =~= prev + seq![lv[i as int]]);
                    }
                },
                ParsedImport::SideEffect { module } => {
                },
                ParsedImport::DefaultImport { binding, module } => {
                    if str_eq(binding.as_str(), "React") && str_eq(module.as_str(), "react") {
                        kept.push(String::from_str("const React = globalThis.React;"));
                        proof {
                            assert(kept.deep_view() =~= prev + seq![
                                "const React = globalThis.React;"@,
                            ]);
                        }
                    } else if str_eq(binding.as_str(), "ReactDOMServer") && str_eq(
                        module.as_str(),
                        "react-dom/server",
                    ) {
                        kept.push(
                            String::from_str("const ReactDOMServer = globalThis.ReactDOMServer;"),
                        );
                        proof {
                            assert(kept.deep_view() =~= prev + seq![
                                "const ReactDOMServer = globalThis.ReactDOMServer;"@,
                            ]);
                        }
                    }
                },
                ParsedImport::NamedImport { names, module } => {
                    if str_eq(module.as_str(), "react") {
                        let mut binding_line = String::new();
                        binding_line.append("const { ");
                        binding_line.append(names.as_str());
                        binding_line.append(" } = globalThis.React;");
                        proof {
                            assert(binding_line@ =~= "const { "@ + names@
                                + " } = globalThis.React;"@);
                        }
                        kept.push(binding_line);
                        proof {
                            assert(kept.deep_view() =~= prev + seq![
                                "const { "@ + names@ + " } = globalThis.React;"@,
                            ]);
                        }
                    }
                },
            }
            proof {
                lemma_global_lines_snoc(lv.take(i as int + 1));
                assert(lv.take(i as int + 1).drop_last() =~= lv.take(i as int));
                assert(lv.take(i as int + 1).last() == lv[i as int]);
            }
            i += 1;
        }
        proof {
            assert(lv.take(n as int) =~= lv);
            reveal_strlit("\n");
        }
        let out = join_str(&kept, "\n");
        proof {
            assert(out@ == spec_convert_globals(js_code@));
        }
        Ok(out)
    }

    /// The server-rendered placeholder document for a compiled route.
    pub fn render_to_html(&self, component: &CompiledComponent) -> (r: Result<String, SSRError>)
        ensures
            r matches Ok(html) && html@
                == "<!DOCTYPE html>\n<html lang=\"en\">\n<head>\n    <meta charset=\"UTF-8\">\n    <meta name=\"viewport\" content=\"width=device-width, initial-scale=1.0\">\n    <title>SSR App</title>\n</head>\n<body>\n    <div id=\"root\">\n         Server-rendered content for route: "@
                + component.route@
                + " \n        <div>Server-rendered React component</div>\n    </div>\n</body>\n</html>"@,
    {
        let mut out = String::new();
        out.append(
            "<!DOCTYPE html>\n<html lang=\"en\">\n<head>\n    <meta charset=\"UTF-8\">\n    <meta name=\"viewport\" content=\"width=device-width, initial-scale=1.0\">\n    <title>SSR App</title>\n</head>\n<body>\n    <div id=\"root\">\n         Server-rendered content for route: ",
        );
        out.append(component.route.as_str());
        out.append(" \n        <div>Server-rendered React component</div>\n    </div>\n</body>\n</html>");
        Ok(out)
    }

    /// The static placeholder document for a compiled route, free of
    /// hydration markers.
    pub fn render_to_static_html(&self, component: &CompiledComponent) -> (r: Result<
        String,
        SSRError,
    >)
        ensures
            r matches Ok(html) && html@
                == "<!DOCTYPE html>\n<html lang=\"en\">\n<head>\n    <meta charset=\"UTF-8\">\n    <meta name=\"viewport\" content=\"width=device-width, initial-scale=1.0\">\n    <title>Static App</title>\n</head>\n<body>\n    <div>\n         Static content for route: "@
                + component.route@
                + " \n        <div>Static React component</div>\n    </div>\n</body>\n</html>"@,
    {
        let mut out = String::new();
        out.append(
            "<!DOCTYPE html>\n<html lang=\"en\">\n<head>\n    <meta charset=\"UTF-8\">\n    <meta name=\"viewport\" content=\"width=device-width, initial-scale=1.0\">\n    <title>Static App</title>\n</head>\n<body>\n    <div>\n         Static content for route: ",
        );
        out.append(component.route.as_str());
        out.append(" \n        <div>Static React component</div>\n    </div>\n</body>\n</html>");
        Ok(out)
    }
}

/// The request context a render sees: url, method, and the header, query and
/// route parameters, each in arrival order.
#[derive(Debug)]
pub struct SSRContext {
    pub url: String,
    pub method: String,
    pub headers: Vec<(String, String)>,
    pub query_params: Vec<(String, String)>,
    pub route_params: Vec<(String, String)>,
}

/// The loading-shell fallback: a document that carries the compiled code in
/// a disarmed comment and shows a placeholder instead of a render.
pub struct SimpleSSRRenderer;

impl SimpleSSRRenderer {
    /// A fresh fallback renderer.
    pub fn new() -> (r: SimpleSSRRenderer)
    {
        SimpleSSRRenderer
    }

    /// The degraded document for a compiled route: the innermost layout's
    /// component name in a marker comment, a loading placeholder, and the
    /// combined code held in a comment with every terminator disarmed.
    pub fn render_component_simple(&self, component: &CompiledComponent) -> (r: Result<
        String,
        SSRError,
    >)
        ensures
            r matches Ok(html) && html@
                == "<!DOCTYPE html>\n<html lang=\"en\">\n<head>\n    <meta charset=\"UTF-8\">\n    <meta name=\"viewport\" content=\"width=device-width, initial-scale=1.0\">\n    <title>Tavo App</title>\n</head>\n<body>\n    <div id=\"root\">\n        <!-- Component: "@
                + rendered_component_name(*component)
                + " -->\n        <div>Loading...</div>\n    </div>\n    <script>\n        // Debug: Component code\n        /*\n        "@
                + escape_comment_end(component.combined_js@)
                + "\n        */\n        console.log('Component ready for hydration');\n    </script>\n</body>\n</html>"@,
    {
        let mut out = String::new();
        out.append(
            "<!DOCTYPE html>\n<html lang=\"en\">\n<head>\n    <meta charset=\"UTF-8\">\n    <meta name=\"viewport\" content=\"width=device-width, initial-scale=1.0\">\n    <title>Tavo App</title>\n</head>\n<body>\n    <div id=\"root\">\n        <!-- Component: ",
        );
        let nl = component.layouts.len();
        if nl > 0 {
            out.append(component.layouts[nl - 1].component_name.as_str());
            proof {
                assert(component.layouts@.last().component_name@ == component.layouts@[nl
                    - 1].component_name@);
            }
        } else {
            out.append("DefaultComponent");
        }
        out.append(
            " -->\n        <div>Loading...</div>\n    </div>\n    <script>\n        // Debug: Component code\n        /*\n        ",
        );
        let escaped = escape_comment_ends(component.combined_js.as_str());
        out.append(escaped.as_str());
        out.append(
            "\n        */\n        console.log('Component ready for hydration');\n    </script>\n</body>\n</html>",
        );
        Ok(out)
    }
}

} // verus!
