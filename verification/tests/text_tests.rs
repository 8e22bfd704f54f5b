use ssr_bundler::cli::parse_compile_type;
use ssr_bundler::cli::check_route;
use ssr_bundler::cli::transpile_options_for;
use ssr_bundler::cli::Args;
use ssr_bundler::cli::CompileType;
use ssr_bundler::compiler::combine_components;
use ssr_bundler::compiler::combine_html_and_script;
use ssr_bundler::compiler::compile_for_hydration;
use ssr_bundler::compiler::extract_component_name;
use ssr_bundler::compiler::resolve_page_path;
use ssr_bundler::compiler::CompiledComponent;
use ssr_bundler::compiler::CompiledLayout;
use ssr_bundler::compose::compose_virtual_entry;
use ssr_bundler::compose::u64_to_string;
use ssr_bundler::error::SSRError;
use ssr_bundler::json::escape_json_string;
use ssr_bundler::json::params_to_json;
use ssr_bundler::output::generate_hydration_output;
use ssr_bundler::output::generate_html_shell;
use ssr_bundler::output::generate_ssr_output;
use ssr_bundler::output::OutputFormat;
use ssr_bundler::output::OutputManager;
use ssr_bundler::renderer::SimpleSSRRenderer;
use ssr_bundler::renderer::SSRRenderer;
use ssr_bundler::tree::AppTree;

fn params(ps: &[(&str, &str)]) -> Vec<(String, String)> {
    ps.iter().map(|(k, v)| (k.to_string(), v.to_string())).collect()
}

#[test]
fn test_import_conversion() {
    let renderer = SSRRenderer::new().unwrap();
    let input = r#"
import React from 'react';
import { useState } from 'react';
import ReactDOMServer from 'react-dom/server';

function MyComponent() {
    return React.createElement('div', null, 'Hello');
}
"#;
    let result = renderer.convert_imports_to_globals(input).unwrap();
    assert!(result.contains("const React = globalThis.React"));
    assert!(result.contains("const { useState } = globalThis.React"));
    assert!(!result.contains("import React from"));
}

#[test]
fn import_conversion_drops_unknown_imports() {
    let renderer = SSRRenderer::new().unwrap();
    let input = "import axios from 'axios';\nconst a = 1;";
    let result = renderer.convert_imports_to_globals(input).unwrap();
    assert_eq!(result, "const a = 1;");
}

#[test]
fn extract_component_name_finds_default_export() {
    assert_eq!(
        extract_component_name("export default function HomePage() { return null; }"),
        "HomePage"
    );
    assert_eq!(
        extract_component_name("const x = 1;\nexport default function  Nav() {}"),
        "Nav"
    );
    assert_eq!(extract_component_name("export const a = 1;"), "DefaultComponent");
    assert_eq!(extract_component_name("export default () => null;"), "DefaultComponent");
}

#[test]
fn json_escaping_exact_values() {
    assert_eq!(escape_json_string("plain"), "plain");
    assert_eq!(escape_json_string("say \"hi\""), "say \\\"hi\\\"");
    assert_eq!(escape_json_string("a\\b"), "a\\\\b");
    assert_eq!(escape_json_string("line\nbreak\ttab"), "line\\nbreak\\ttab");
    assert_eq!(escape_json_string("\u{1}"), "\\u0001");
}

#[test]
fn params_json_exact_text() {
    assert_eq!(params_to_json(&params(&[])), "{}");
    assert_eq!(
        params_to_json(&params(&[("slug", "hello-world"), ("id", "7")])),
        "{\"slug\":\"hello-world\",\"id\":\"7\"}"
    );
}

#[test]
fn decimal_rendering_exact_values() {
    assert_eq!(u64_to_string(0), "0");
    assert_eq!(u64_to_string(7), "7");
    assert_eq!(u64_to_string(12345), "12345");
}

#[test]
fn combine_components_orders_layouts_before_page() {
    let layouts = vec![
        CompiledLayout {
            path: "layout.tsx".to_string(),
            component_name: "Root".to_string(),
            compiled_js: "const Root = 1;".to_string(),
        },
        CompiledLayout {
            path: "a/layout.tsx".to_string(),
            component_name: "Inner".to_string(),
            compiled_js: "const Inner = 2;".to_string(),
        },
    ];
    let combined = combine_components(&layouts, "const Page = 3;");
    assert_eq!(combined, "const Root = 1;\nconst Inner = 2;\nconst Page = 3;");
}

#[test]
fn assembled_component_concatenates_in_order() {
    let layouts = vec![CompiledLayout {
        path: "layout.tsx".to_string(),
        component_name: "Root".to_string(),
        compiled_js: "const Root = 1;".to_string(),
    }];
    let c = CompiledComponent::assemble(
        "/".to_string(),
        layouts,
        "const Page = 2;".to_string(),
    );
    assert_eq!(c.combined_js, "const Root = 1;\nconst Page = 2;");
    assert_eq!(c.page_component, "const Page = 2;");
    assert_eq!(c.route, "/");
}

#[test]
fn resolve_page_path_checks_the_tree() {
    let tree = {
        let mut t = AppTree::new();
        t.add("app/page.tsx");
        t.add("app/about/page.tsx");
        t
    };
    assert_eq!(resolve_page_path("/", &tree).unwrap(), "app/page.tsx");
    assert_eq!(resolve_page_path("/about", &tree).unwrap(), "app/about/page.tsx");
    match resolve_page_path("/missing", &tree).unwrap_err() {
        SSRError::FileNotFound(p) => assert_eq!(p, "app/missing/page.tsx"),
        other => panic!("unexpected error: {:?}", other),
    }
}

#[test]
fn compile_for_hydration_wraps_combined_code() {
    let component = CompiledComponent {
        route: "/".to_string(),
        layouts: Vec::new(),
        page_component: "const Page = 1;".to_string(),
        combined_js: "const Page = 1;".to_string(),
    };
    let js = compile_for_hydration(&component).unwrap();
    assert!(js.starts_with("import { hydrateRoot } from 'react-dom/client';\n"));
    assert!(js.contains("const Page = 1;"));
    assert!(js.contains("hydrateRoot(container, React.createElement(App));"));
}

#[test]
fn combine_html_and_script_embeds_both() {
    let page = combine_html_and_script("<p>hi</p>", "console.log(1);").unwrap();
    assert!(page.contains("<div id=\"root\"><p>hi</p></div>"));
    assert!(page.contains("<script>console.log(1);</script>"));
}

#[test]
fn virtual_entry_nests_layouts_around_page() {
    let layouts = vec![
        "export default function Shell() {}".to_string(),
        "export default function Section() {}".to_string(),
    ];
    let entry = compose_virtual_entry(
        &layouts,
        "export default function Home() {}",
        &params(&[("slug", "x")]),
        false,
    );
    assert!(entry.contains("const Layout0 = Shell;"));
    assert!(entry.contains("const Layout1 = Section;"));
    assert!(entry.contains("const Page = Home;"));
    assert!(entry.contains("globalThis.__TAVO_PARAMS__ = {\"slug\":\"x\"};"));
    assert!(entry.contains(
        "React.createElement(Layout0, null, React.createElement(Layout1, null, React.createElement(Page, { params: globalThis.__TAVO_PARAMS__ })))"
    ));
    assert!(entry.ends_with("globalThis.AppRoot = AppRoot;\n"));
}

#[test]
fn virtual_entry_hydration_stanza_mounts_root() {
    let entry = compose_virtual_entry(
        &Vec::new(),
        "export default function Home() {}",
        &params(&[]),
        true,
    );
    assert!(entry.contains("ReactDOM.hydrateRoot(rootElement, React.createElement(AppRoot));"));
}

#[test]
fn output_manager_parses_format() {
    assert_eq!(OutputManager::new("json".to_string()).format, OutputFormat::Json);
    assert_eq!(OutputManager::new("stdout".to_string()).format, OutputFormat::Stdout);
    assert_eq!(OutputManager::new("other".to_string()).format, OutputFormat::Json);
}

#[test]
fn hydration_output_uses_the_empty_shell() {
    let data = generate_hydration_output("const a = 1;", &params(&[("k", "v")]));
    assert_eq!(data.html, generate_html_shell());
    assert_eq!(data.js, "const a = 1;");
    assert_eq!(data.params, params(&[("k", "v")]));
}

#[test]
fn ssr_output_carries_params_and_bootstrap() {
    let data = generate_ssr_output("<p>ok</p>", "const a = 1;", &params(&[("k", "v")]));
    assert!(data.html.contains("<script>window.__TAVO_PARAMS__ = {\"k\":\"v\"};</script>"));
    assert!(data.html.contains("<div id=\"root\"><p>ok</p></div>"));
    assert!(data.js.starts_with("const a = 1;\n\n// Hydration bootstrap\n"));
    assert!(data.js.contains("createRoot(root).render(React.createElement(App, { params }));"));
}

#[test]
fn placeholder_renders_name_the_route() {
    let component = CompiledComponent {
        route: "/about".to_string(),
        layouts: Vec::new(),
        page_component: String::new(),
        combined_js: String::new(),
    };
    let renderer = SSRRenderer::new().unwrap();
    let html = renderer.render_to_html(&component).unwrap();
    assert!(html.contains("Server-rendered content for route: /about"));
    let static_html = renderer.render_to_static_html(&component).unwrap();
    assert!(static_html.contains("Static content for route: /about"));
    assert!(!static_html.contains("id=\"root\""));
}

#[test]
fn simple_renderer_disarms_comment_ends() {
    let component = CompiledComponent {
        route: "/".to_string(),
        layouts: vec![CompiledLayout {
            path: "layout.tsx".to_string(),
            component_name: "Shell".to_string(),
            compiled_js: String::new(),
        }],
        page_component: String::new(),
        combined_js: "/* inner */ code".to_string(),
    };
    let html = SimpleSSRRenderer::new().render_component_simple(&component).unwrap();
    assert!(html.contains("<!-- Component: Shell -->"));
    assert!(html.contains("/* inner *\\/ code"));
}

#[test]
fn error_messages_name_their_subject() {
    assert_eq!(
        SSRError::RouteNotFound("/x".to_string()).message(),
        "No matching page for route: /x"
    );
    assert_eq!(
        SSRError::UnresolvedImport("./a".to_string(), "m.tsx".to_string()).message(),
        "Could not resolve import: ./a in m.tsx"
    );
    assert_eq!(
        SSRError::InvalidAppDir("appdir".to_string()).message(),
        "App directory does not exist: appdir"
    );
    assert_eq!(SSRError::RenderTimeout.message(), "Render timed out");
    assert_eq!(
        SSRError::file_not_found("a/b").message(),
        "File not found: a/b"
    );
    assert_eq!(SSRError::parse_error("bad token").message(), "Parse error: bad token");
    assert_eq!(
        SSRError::js_runtime_error("boom").message(),
        "JavaScript runtime error: boom"
    );
    assert_eq!(
        SSRError::InvalidCompileType("debug".to_string()).message(),
        "Invalid compile type 'debug'. Valid options: ssr, hydration, static"
    );
    assert_eq!(
        SSRError::InvalidOutputFormat("xml".to_string()).message(),
        "Invalid output format 'xml'. Valid options: json, stdout"
    );
    assert_eq!(
        SSRError::InvalidRoute("about".to_string()).message(),
        "Invalid route 'about'. Routes must start with '/'"
    );
}

#[test]
fn compile_type_selector_round_trip() {
    assert_eq!(parse_compile_type("ssr").unwrap(), CompileType::Ssr);
    assert_eq!(parse_compile_type("hydration").unwrap(), CompileType::Hydration);
    assert_eq!(parse_compile_type("static").unwrap(), CompileType::Static);
    match parse_compile_type("debug").unwrap_err() {
        SSRError::InvalidCompileType(t) => assert_eq!(t, "debug"),
        other => panic!("unexpected error: {:?}", other),
    }
}

#[test]
fn route_shape_is_checked() {
    assert!(check_route("/ok").is_ok());
    match check_route("bad").unwrap_err() {
        SSRError::InvalidRoute(t) => assert_eq!(t, "bad"),
        other => panic!("unexpected error: {:?}", other),
    }
}

#[test]
fn transpile_options_follow_the_arguments() {
    let args = Args {
        entry: "src/App.tsx".to_string(),
        ssr: true,
        hydrate: false,
        out: None,
        minify: true,
        sourcemap: false,
    };
    let opts = transpile_options_for(&args);
    assert!(opts.minify);
    assert!(!opts.sourcemap);
    assert!(opts.jsx);
    assert!(opts.typescript);
}
