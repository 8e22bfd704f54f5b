use ssr_bundler::bundler::generate_hydration_wrapper;
use ssr_bundler::bundler::Bundler;
use ssr_bundler::classify::classify;
use ssr_bundler::classify::classify_specifier;
use ssr_bundler::classify::resolve_import;
use ssr_bundler::classify::rewrite_server_imports;
use ssr_bundler::classify::stub_source;
use ssr_bundler::classify::ImportDisposition;
use ssr_bundler::classify::ImportKind;
use ssr_bundler::error::SSRError;
use ssr_bundler::hydration::combine_modules;
use ssr_bundler::tree::AppTree;

fn tree_of(files: &[&str]) -> AppTree {
    let mut t = AppTree::new();
    for f in files {
        t.add(f);
    }
    t
}

fn no_imports() -> Vec<String> {
    Vec::new()
}

fn imports(specs: &[&str]) -> Vec<String> {
    specs.iter().map(|s| s.to_string()).collect()
}

#[test]
fn test_resolve_relative_import() {
    let tree = tree_of(&["src/main.tsx", "src/components/App.tsx"]);
    let resolved = resolve_import("./components/App", "src/main.tsx", &tree).unwrap();
    assert_eq!(resolved, "src/components/App.tsx");
}

#[test]
fn resolve_import_prefers_literal_then_extensions_then_index() {
    let tree = tree_of(&["src/a", "src/b.ts", "src/c/index.jsx", "src/main.tsx"]);
    assert_eq!(resolve_import("./a", "src/main.tsx", &tree).unwrap(), "src/a");
    assert_eq!(resolve_import("./b", "src/main.tsx", &tree).unwrap(), "src/b.ts");
    assert_eq!(resolve_import("./c", "src/main.tsx", &tree).unwrap(), "src/c/index.jsx");
}

#[test]
fn resolve_import_normalizes_parent_segments() {
    let tree = tree_of(&["shared.tsx", "a/mod.tsx"]);
    assert_eq!(resolve_import("../shared", "a/mod.tsx", &tree).unwrap(), "shared.tsx");
}

#[test]
fn resolve_import_bare_specifier_passes_through() {
    let tree = tree_of(&[]);
    assert_eq!(resolve_import("react", "src/main.tsx", &tree).unwrap(), "react");
}

#[test]
fn resolve_import_unresolved_names_specifier_and_importer() {
    let tree = tree_of(&["src/main.tsx"]);
    let err = resolve_import("./nope", "src/main.tsx", &tree).unwrap_err();
    match err {
        SSRError::UnresolvedImport(s, m) => {
            assert_eq!(s, "./nope");
            assert_eq!(m, "src/main.tsx");
        },
        other => panic!("unexpected error: {:?}", other),
    }
}

#[test]
fn classifier_dispositions() {
    assert_eq!(classify_specifier("./styles.css"), ImportKind::Elide);
    assert_eq!(classify_specifier("logo.png"), ImportKind::Elide);
    assert_eq!(classify_specifier("jquery"), ImportKind::Elide);
    assert_eq!(classify_specifier("react"), ImportKind::PassThrough);
    assert_eq!(classify_specifier("fs"), ImportKind::PassThrough);
    assert_eq!(classify_specifier("some-unknown-package"), ImportKind::PassThrough);
    assert_eq!(classify_specifier("next/link"), ImportKind::Stub);
    assert_eq!(classify_specifier("./local"), ImportKind::Recurse);
    assert_eq!(classify_specifier("../up"), ImportKind::Recurse);
    assert_eq!(classify_specifier("@/lib/util"), ImportKind::Recurse);
}

#[test]
fn classify_resolves_root_alias_from_project_root() {
    let tree = tree_of(&["lib/util.ts", "src/main.tsx"]);
    match classify("@/lib/util", "src/main.tsx", &tree).unwrap() {
        ImportDisposition::Recurse(p) => assert_eq!(p, "lib/util.ts"),
        other => panic!("unexpected disposition: {:?}", kind_name(&other)),
    }
}

fn kind_name(d: &ImportDisposition) -> &'static str {
    match d {
        ImportDisposition::Recurse(_) => "recurse",
        ImportDisposition::PassThrough => "pass-through",
        ImportDisposition::Elide => "elide",
        ImportDisposition::Stub(_) => "stub",
    }
}

#[test]
fn stub_texts_are_server_safe_shims() {
    assert_eq!(
        stub_source("next/link"),
        "const Link = (props) => React.createElement('a', { href: props.href }, props.children);"
    );
    assert_eq!(stub_source("next/head"), "const Head = (props) => null;");
}

#[test]
fn rewrite_drops_elided_and_inlines_stubs() {
    let code = "import './theme.css';\nimport Link from 'next/link';\nimport React from 'react';\nconst x = 1;";
    let got = rewrite_server_imports(code);
    assert_eq!(
        got,
        "const Link = (props) => React.createElement('a', { href: props.href }, props.children);\nimport React from 'react';\nconst x = 1;"
    );
}

#[test]
fn dependency_graph_deduplicates_shared_module() {
    let tree = tree_of(&["main.tsx", "a.tsx", "b.tsx", "shared.tsx"]);
    let mut b = Bundler::new("main.tsx");
    // main imports ./a and ./b; each of those reaches shared.tsx under a
    // different relative spelling.
    let mut steps = 0;
    while let Some(p) = b.next_pending() {
        let imps = match p.as_str() {
            "main.tsx" => imports(&["./a", "./b"]),
            "a.tsx" => imports(&["./shared"]),
            "b.tsx" => imports(&["././shared"]),
            _ => no_imports(),
        };
        b.add_module("export default function M() {}", &imps, &tree).unwrap();
        steps += 1;
        assert!(steps <= 10, "bundling did not terminate");
    }
    let bundle = b.into_ssr_bundle();
    let mut keys: Vec<String> = bundle.modules.iter().map(|m| m.0.clone()).collect();
    assert_eq!(keys.len(), 4);
    keys.sort();
    assert_eq!(keys, vec!["a.tsx", "b.tsx", "main.tsx", "shared.tsx"]);
}

#[test]
fn dependency_graph_survives_import_cycle() {
    let tree = tree_of(&["a.tsx", "b.tsx"]);
    let mut b = Bundler::new("a.tsx");
    let mut steps = 0;
    while let Some(p) = b.next_pending() {
        let imps = match p.as_str() {
            "a.tsx" => imports(&["./b"]),
            "b.tsx" => imports(&["./a"]),
            _ => no_imports(),
        };
        b.add_module("const cyclic = true;", &imps, &tree).unwrap();
        steps += 1;
        assert!(steps <= 10, "cycle made bundling diverge");
    }
    let bundle = b.into_ssr_bundle();
    assert_eq!(bundle.modules.len(), 2);
}

#[test]
fn add_module_fails_on_unresolved_import() {
    let tree = tree_of(&["main.tsx"]);
    let mut b = Bundler::new("main.tsx");
    let p = b.next_pending().unwrap();
    assert_eq!(p, "main.tsx");
    let err = b.add_module("whatever", &imports(&["./missing"]), &tree).unwrap_err();
    match err {
        SSRError::UnresolvedImport(s, m) => {
            assert_eq!(s, "./missing");
            assert_eq!(m, "main.tsx");
        },
        other => panic!("unexpected error: {:?}", other),
    }
}

#[test]
fn round_trip_single_module_bundles() {
    let tree = tree_of(&["page.tsx"]);
    let mut b = Bundler::new("page.tsx");
    let p = b.next_pending().unwrap();
    assert_eq!(p, "page.tsx");
    b.add_module("export default function Page() {}", &no_imports(), &tree).unwrap();
    assert!(b.next_pending().is_none());
    let ssr = b.into_ssr_bundle();
    assert_eq!(ssr.modules.len(), 1);
    assert_eq!(ssr.modules[0].0, ssr.entry_point);
    assert_eq!(ssr.entry_point, "page.tsx");

    let mut b2 = Bundler::new("page.tsx");
    b2.next_pending().unwrap();
    b2.add_module("export default function Page() {}", &no_imports(), &tree).unwrap();
    let hyd = b2.into_hydration_bundle();
    assert_eq!(hyd.modules.len(), 2);
    assert_eq!(hyd.entry_point, "__hydration_entry__");
    assert!(hyd.has_module("__hydration_entry__"));
    assert!(hyd.has_module("page.tsx"));
}

#[test]
fn hydration_wrapper_mounts_the_entry_stem() {
    let w = generate_hydration_wrapper("src/App.tsx");
    assert!(w.contains("import App from \"src/App.tsx\";"));
    assert!(w.contains("hydrateRoot(rootElement, React.createElement(App));"));
}

#[test]
fn combine_modules_emits_entry_last() {
    let tree = tree_of(&["main.tsx", "dep.tsx"]);
    let mut b = Bundler::new("main.tsx");
    while let Some(p) = b.next_pending() {
        let imps = if p == "main.tsx" { imports(&["./dep"]) } else { no_imports() };
        b.add_module(&format!("// code of {}", p), &imps, &tree).unwrap();
    }
    let bundle = b.into_hydration_bundle();
    let script = combine_modules(&bundle);
    let entry_pos = script.find("// Entry point (hydration)").unwrap();
    let main_pos = script.find("// Module: main.tsx").unwrap();
    let dep_pos = script.find("// Module: dep.tsx").unwrap();
    assert!(main_pos < entry_pos);
    assert!(dep_pos < entry_pos);
    assert!(script.starts_with("\n// React runtime for hydration"));
}
