//! Route resolution: enumerate the page files of the app tree, match the
//! requested route against each page's derived pattern in enumeration order,
//! and return the winning page with its bound parameters and layout chain.

use vstd::prelude::*;

use crate::error::SSRError;
use crate::layout::find_layout_chain;
use crate::layout::spec_layout_chain;
use crate::layout::under_dir;
use crate::route::file_path_to_route_pattern;
use crate::route::match_route_pattern;
use crate::route::spec_match_route;
use crate::route::spec_route_pattern;
use crate::strutil::split_chars;
use crate::strutil::split_str;
use crate::strutil::str_eq;
use crate::tree::AppTree;

verus! {

/// The outcome of resolving one route: the matched page file, the parameters
/// its pattern bound (in pattern order), and the page's layout chain from the
/// root down, each path placed under the app directory.
#[derive(Debug, Clone)]
pub struct RouteInfo {
    pub file_path: String,
    pub params: Vec<(String, String)>,
    pub layout_chain: Vec<String>,
}

/// Whether a path's last segment names a page file.
pub open spec fn is_page_path(p: Seq<char>) -> bool {
    split_chars(p, '/').last() == "page.tsx"@
}

/// The page files of a listing, in enumeration order.
pub open spec fn page_files_of(files: Seq<Seq<char>>) -> Seq<Seq<char>>
    decreases files.len(),
{
    if files.len() == 0 {
        Seq::<Seq<char>>::empty()
    } else {
        (if is_page_path(files[0]) {
            seq![files[0]]
        } else {
            Seq::<Seq<char>>::empty()
        }) + page_files_of(files.skip(1))
    }
}

pub proof fn lemma_page_files_of_snoc(files: Seq<Seq<char>>)
    requires
        files.len() >= 1,
    ensures
        page_files_of(files) == page_files_of(files.drop_last()) + (if is_page_path(
            files.last(),
        ) {
            seq![files.last()]
        } else {
            Seq::<Seq<char>>::empty()
        }),
    decreases files.len(),
{
    let tail = if is_page_path(files.last()) {
        seq![files.last()]
    } else {
        Seq::<Seq<char>>::empty()
    };
    if files.len() == 1 {
        assert(page_files_of(files.skip(1)) =~= Seq::<Seq<char>>::empty());
        assert(page_files_of(files.drop_last()) =~= Seq::<Seq<char>>::empty());
        assert(page_files_of(files) =~= page_files_of(files.drop_last()) + tail);
    } else {
        lemma_page_files_of_snoc(files.skip(1));
        assert(files.skip(1).drop_last() =~= files.drop_last().skip(1));
        assert(files.skip(1).last() == files.last());
        assert(files.drop_last()[0] == files[0]);
        assert(page_files_of(files) =~= page_files_of(files.drop_last()) + tail);
    }
}

/// Collects every page file in the listing, in the listing's order.
pub fn find_page_files(tree: &AppTree) -> (r: Vec<String>)
    ensures
        r.deep_view() == page_files_of(tree.paths()),
{
    let n = tree.files.len();
    let mut out: Vec<String> = Vec::new();
    proof {
        assert(out.deep_view() =~= page_files_of(tree.paths().take(0)));
        assert(tree.paths().take(0) =~= Seq::<Seq<char>>::empty());
    }
    let mut i: usize = 0;
    while i < n
        invariant
            i <= n,
            n == tree.files.len(),
            out.deep_view() == page_files_of(tree.paths().take(i as int)),
        decreases n - i,
    {
        let ghost prev = out.deep_view();
        let segs = split_str(tree.files[i].as_str(), '/');
        let is_page = str_eq(segs[segs.len() - 1].as_str(), "page.tsx");
        proof {
            assert(segs.deep_view().last() == segs@[segs@.len() - 1]@);
            assert(tree.paths()[i as int] == tree.files@[i as int]@);
        }
        if is_page {
            let p = tree.files[i].clone();
            out.push(p);
            proof {
                assert(out.deep_view() =~= prev + seq![tree.paths()[i as int]]);
            }
        }
        proof {
            lemma_page_files_of_snoc(tree.paths().take(i as int + 1));
            assert(tree.paths().take(i as int + 1).drop_last() =~= tree.paths().take(i as int));
            assert(tree.paths().take(i as int + 1).last() == tree.paths()[i as int]);
            if !is_page_path(tree.paths()[i as int]) {
                assert(out.deep_view() =~= prev + Seq::<Seq<char>>::empty());
            }
        }
        i += 1;
    }
    proof {
        assert(tree.paths().take(n as int) =~= tree.paths());
    }
    out
}

/// The first page in the list whose derived pattern matches the route.
pub open spec fn first_matching_page(pages: Seq<Seq<char>>, route: Seq<char>) -> Option<Seq<char>>
    decreases pages.len(),
{
    if pages.len() == 0 {
        None
    } else if spec_match_route(spec_route_pattern(pages[0]), route) is Some {
        Some(pages[0])
    } else {
        first_matching_page(pages.skip(1), route)
    }
}

/// What `resolve_route` answers when a page matches: the winning page's path
/// under the app directory, the parameters its pattern binds, and its layout
/// chain under the app directory.
pub open spec fn resolved_route_ok(
    info: RouteInfo,
    route: Seq<char>,
    app_dir: Seq<char>,
    files: Seq<Seq<char>>,
) -> bool {
    let found = first_matching_page(page_files_of(files), route);
    &&& found is Some
    &&& info.file_path@ == app_dir + seq!['/'] + found.unwrap()
    &&& Some(info.params.deep_view()) == spec_match_route(
        spec_route_pattern(found.unwrap()),
        route,
    )
    &&& info.layout_chain.deep_view() == under_dir(
        app_dir,
        spec_layout_chain(found.unwrap(), files),
    )
}

/// What `resolve_route` answers in every case: success with the first
/// matching page exactly when some page's pattern matches, and a
/// route-not-found error naming the route exactly when none does.
pub open spec fn resolve_route_post(
    r: Result<RouteInfo, SSRError>,
    route: Seq<char>,
    app_dir: Seq<char>,
    files: Seq<Seq<char>>,
) -> bool {
    match r {
        Ok(info) => resolved_route_ok(info, route, app_dir, files),
        Err(e) => {
            &&& e matches SSRError::RouteNotFound(m) && m@ == route
            &&& first_matching_page(page_files_of(files), route) is None
        },
    }
}

/// Law: route resolution is a function of the route, the app directory and
/// the tree alone. Any two results that `resolve_route`'s contract allows for
/// the same inputs agree: both succeed or both fail, and on success the page
/// path, the bound parameters and the layout chain are identical.
pub proof fn lemma_resolve_route_idempotent(
    r1: Result<RouteInfo, SSRError>,
    r2: Result<RouteInfo, SSRError>,
    route: Seq<char>,
    app_dir: Seq<char>,
    files: Seq<Seq<char>>,
)
    requires
        resolve_route_post(r1, route, app_dir, files),
        resolve_route_post(r2, route, app_dir, files),
    ensures
        r1 is Ok <==> r2 is Ok,
        r1 matches Ok(a) ==> (r2 matches Ok(b) ==> {
            &&& a.file_path@ == b.file_path@
            &&& a.params.deep_view() == b.params.deep_view()
            &&& a.layout_chain.deep_view() == b.layout_chain.deep_view()
        }),
{
}

/// Resolves a route against the app tree. The first page file, in the
/// listing's enumeration order, whose pattern matches wins; when none
/// matches, the route is not found. The caller guarantees that `tree` is the
/// listing of the existing directory `app_dir`; a missing or non-directory
/// app root is surfaced by the caller as `SSRError::InvalidAppDir` before any
/// listing exists.
pub fn resolve_route(route: &str, app_dir: &str, tree: &AppTree) -> (r: Result<
    RouteInfo,
    SSRError,
>)
    ensures
        resolve_route_post(r, route@, app_dir@, tree.paths()),
{
    let pages = find_page_files(tree);
    let ghost pv = pages.deep_view();
    let n = pages.len();
    let mut i: usize = 0;
    proof {
        assert(pv.skip(0) =~= pv);
    }
    while i < n
        invariant
            i <= n,
            n == pages.len(),
            pv == pages.deep_view(),
            pv == page_files_of(tree.paths()),
            first_matching_page(pv, route@) == first_matching_page(pv.skip(i as int), route@),
        decreases n - i,
    {
        let page = &pages[i];
        let pattern = file_path_to_route_pattern(page.as_str());
        let matched = match_route_pattern(pattern.as_str(), route);
        proof {
            assert(pv[i as int] == pages@[i as int]@);
            assert(pv.skip(i as int)[0] == pv[i as int]);
            assert(pv.skip(i as int).skip(1) =~= pv.skip(i as int + 1));
        }
        match matched {
            Some(params) => {
                let mut file_path = String::new();
                file_path.append(app_dir);
                file_path.append("/");
                file_path.append(page.as_str());
                let rel_chain = find_layout_chain(page.as_str(), tree);
                let m = rel_chain.len();
                let mut layout_chain: Vec<String> = Vec::new();
                let ghost cv = rel_chain.deep_view();
                proof {
                    reveal_strlit("/");
                    assert(layout_chain.deep_view() =~= under_dir(app_dir@, cv.take(0)));
                    assert(cv.take(0) =~= Seq::<Seq<char>>::empty());
                }
                let mut j: usize = 0;
                while j < m
                    invariant
                        j <= m,
                        m == rel_chain.len(),
                        cv == rel_chain.deep_view(),
                        layout_chain.deep_view() == under_dir(app_dir@, cv.take(j as int)),
                    decreases m - j,
                {
                    let ghost prev = layout_chain.deep_view();
                    let mut abs = String::new();
                    abs.append(app_dir);
                    abs.append("/");
                    abs.append(rel_chain[j].as_str());
                    layout_chain.push(abs);
                    proof {
                        reveal_strlit("/");
                        assert(cv[j as int] == rel_chain@[j as int]@);
                        assert(layout_chain.deep_view() =~~= prev + seq![
                            app_dir@ + seq!['/'] + cv[j as int],
                        ]);
                        assert(layout_chain.deep_view() =~~= under_dir(
                            app_dir@,
                            cv.take(j as int + 1),
                        ));
                    }
                    j += 1;
                }
                let info = RouteInfo { file_path, params, layout_chain };
                proof {
                    reveal_strlit("/");
                    assert(cv.take(m as int) =~= cv);
                    assert(first_matching_page(pv, route@) == Some(pv[i as int]));
                    assert(info.file_path@ =~= app_dir@ + seq!['/'] + pv[i as int]);
                    assert(Some(info.params.deep_view()) == spec_match_route(
                        spec_route_pattern(pv[i as int]),
                        route@,
                    ));
                    assert(info.layout_chain.deep_view() =~~= under_dir(
                        app_dir@,
                        spec_layout_chain(pv[i as int], tree.paths()),
                    ));
                }
                return Ok(info);
            },
            None => {
            },
        }
        i += 1;
    }
    proof {
        assert(pv.skip(n as int) =~= Seq::<Seq<char>>::empty());
    }
    Err(SSRError::RouteNotFound(String::from_str(route)))
}

} // verus!
