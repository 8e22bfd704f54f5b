use ssr_bundler::layout::find_layout_chain;
use ssr_bundler::layout::LayoutResolver;
use ssr_bundler::resolver::find_page_files;
use ssr_bundler::resolver::resolve_route;
use ssr_bundler::route::file_path_to_route_pattern;
use ssr_bundler::route::match_route_pattern;
use ssr_bundler::route::normalize_route;
use ssr_bundler::error::SSRError;
use ssr_bundler::tree::AppTree;

fn tree_of(files: &[&str]) -> AppTree {
    let mut t = AppTree::new();
    for f in files {
        t.add(f);
    }
    t
}

#[test]
fn test_file_path_to_route_pattern() {
    assert_eq!(file_path_to_route_pattern("page.tsx"), "/");
    assert_eq!(file_path_to_route_pattern("about/page.tsx"), "/about");
    assert_eq!(file_path_to_route_pattern("blog/[slug]/page.tsx"), "/blog/::slug");
}

#[test]
fn test_match_route_pattern() {
    let expected = vec![("slug".to_string(), "hello-world".to_string())];
    assert_eq!(match_route_pattern("/blog/::slug", "/blog/hello-world"), Some(expected));
    assert_eq!(match_route_pattern("/about", "/about"), Some(Vec::new()));
    assert_eq!(match_route_pattern("/blog/::slug", "/about"), None);
}

#[test]
fn pattern_of_nested_dynamic_segments() {
    assert_eq!(
        file_path_to_route_pattern("shop/[category]/[item]/page.tsx"),
        "/shop/::category/::item"
    );
}

#[test]
fn match_binds_parameters_in_pattern_order() {
    let got = match_route_pattern("/shop/::category/::item", "/shop/books/dune").unwrap();
    assert_eq!(
        got,
        vec![
            ("category".to_string(), "books".to_string()),
            ("item".to_string(), "dune".to_string()),
        ]
    );
}

#[test]
fn match_rejects_segment_count_mismatch() {
    assert_eq!(match_route_pattern("/blog/::slug", "/blog/a/b"), None);
    assert_eq!(match_route_pattern("/blog/::slug", "/blog"), None);
}

#[test]
fn match_rejects_empty_dynamic_segment() {
    assert_eq!(match_route_pattern("/blog/::slug", "/blog/"), None);
}

#[test]
fn root_pattern_matches_only_root_route() {
    assert_eq!(match_route_pattern("/", "/"), Some(Vec::new()));
    assert_eq!(match_route_pattern("/", "/about"), None);
}

#[test]
fn normalize_route_strips_trailing_slashes() {
    assert_eq!(normalize_route("/about/"), "/about");
    assert_eq!(normalize_route("/about///"), "/about");
    assert_eq!(normalize_route("/"), "/");
    assert_eq!(normalize_route("///"), "/");
    assert_eq!(normalize_route("/blog/x"), "/blog/x");
}

#[test]
fn find_page_files_keeps_walk_order() {
    let tree = tree_of(&["readme.md", "page.tsx", "about/page.tsx", "about/layout.tsx"]);
    let pages = find_page_files(&tree);
    assert_eq!(pages, vec!["page.tsx".to_string(), "about/page.tsx".to_string()]);
}

#[test]
fn end_to_end_about_route_without_layouts() {
    let tree = tree_of(&["page.tsx", "about/page.tsx"]);
    let info = resolve_route("/about", "app", &tree).unwrap();
    assert_eq!(info.file_path, "app/about/page.tsx");
    assert!(info.params.is_empty());
    assert!(info.layout_chain.is_empty());
}

#[test]
fn resolve_route_binds_dynamic_parameters() {
    let tree = tree_of(&["blog/[slug]/page.tsx", "blog/[slug]/layout.tsx", "layout.tsx"]);
    let info = resolve_route("/blog/hello-world", "app", &tree).unwrap();
    assert_eq!(info.file_path, "app/blog/[slug]/page.tsx");
    assert_eq!(info.params, vec![("slug".to_string(), "hello-world".to_string())]);
    assert_eq!(
        info.layout_chain,
        vec!["app/layout.tsx".to_string(), "app/blog/[slug]/layout.tsx".to_string()]
    );
}

#[test]
fn resolve_route_not_found_names_the_route() {
    let tree = tree_of(&["page.tsx"]);
    let err = resolve_route("/missing", "app", &tree).unwrap_err();
    match err {
        SSRError::RouteNotFound(r) => assert_eq!(r, "/missing"),
        other => panic!("unexpected error: {:?}", other),
    }
}

#[test]
fn resolve_route_is_idempotent() {
    let tree = tree_of(&["layout.tsx", "blog/[slug]/page.tsx"]);
    let a = resolve_route("/blog/x", "app", &tree).unwrap();
    let b = resolve_route("/blog/x", "app", &tree).unwrap();
    assert_eq!(a.file_path, b.file_path);
    assert_eq!(a.params, b.params);
    assert_eq!(a.layout_chain, b.layout_chain);
}

#[test]
fn layout_chain_three_deep_and_root_removal() {
    let tree = tree_of(&[
        "layout.tsx",
        "a/layout.tsx",
        "a/b/layout.tsx",
        "a/b/page.tsx",
    ]);
    let chain = find_layout_chain("a/b/page.tsx", &tree);
    assert_eq!(
        chain,
        vec![
            "layout.tsx".to_string(),
            "a/layout.tsx".to_string(),
            "a/b/layout.tsx".to_string(),
        ]
    );
    let tree2 = tree_of(&["a/layout.tsx", "a/b/layout.tsx", "a/b/page.tsx"]);
    let chain2 = find_layout_chain("a/b/page.tsx", &tree2);
    assert_eq!(chain2, vec!["a/layout.tsx".to_string(), "a/b/layout.tsx".to_string()]);
    assert_eq!(chain2[..], chain[1..]);
}

#[test]
fn missing_intermediate_layout_is_skipped() {
    let tree = tree_of(&["layout.tsx", "a/b/layout.tsx", "a/b/page.tsx"]);
    let chain = find_layout_chain("a/b/page.tsx", &tree);
    assert_eq!(chain, vec!["layout.tsx".to_string(), "a/b/layout.tsx".to_string()]);
}

#[test]
fn layout_resolver_walks_route_segments() {
    let tree = tree_of(&["layout.tsx", "dashboard/layout.tsx", "dashboard/page.tsx"]);
    let resolver = LayoutResolver::new("app".to_string(), tree);
    let layouts = resolver.resolve_layouts("/dashboard").unwrap();
    assert_eq!(
        layouts,
        vec!["app/layout.tsx".to_string(), "app/dashboard/layout.tsx".to_string()]
    );
}

#[test]
fn layout_resolver_root_route_sees_root_layout() {
    let tree = tree_of(&["layout.tsx", "page.tsx"]);
    let resolver = LayoutResolver::new("app".to_string(), tree);
    let layouts = resolver.resolve_layouts("/").unwrap();
    assert_eq!(layouts, vec!["app/layout.tsx".to_string()]);
}
