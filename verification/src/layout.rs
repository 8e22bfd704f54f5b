//! Layout chains: the ordered sequence of `layout.tsx` files from the app
//! root down to a page's directory, outermost first. A missing layout at any
//! level is simply absent from the chain.

use vstd::prelude::*;

use crate::error::SSRError;
use crate::strutil::join_chars;
use crate::strutil::lemma_join_chars_snoc;
use crate::strutil::split_chars;
use crate::strutil::split_str;
use crate::tree::AppTree;

verus! {

/// The layout file that would govern the prefix made of the first `k`
/// directory segments: `layout.tsx` beside them, at the app root when
/// `k == 0`.
pub open spec fn layout_candidate(segs: Seq<Seq<char>>, k: int) -> Seq<char> {
    if k == 0 {
        "layout.tsx"@
    } else {
        join_chars(segs.take(k), '/') + seq!['/'] + "layout.tsx"@
    }
}

/// The chain built from prefixes of size `0` to `m - 1`, in that order,
/// keeping only the candidates present in the listing.
pub open spec fn chain_up_to(segs: Seq<Seq<char>>, files: Seq<Seq<char>>, m: int) -> Seq<Seq<char>>
    decreases m,
{
    if m <= 0 {
        Seq::<Seq<char>>::empty()
    } else {
        chain_up_to(segs, files, m - 1) + (if files.contains(layout_candidate(segs, m - 1)) {
            seq![layout_candidate(segs, m - 1)]
        } else {
            Seq::<Seq<char>>::empty()
        })
    }
}

/// The layout chain of a page file given by its app-relative path: one
/// candidate per prefix directory from the app root down to (and including)
/// the page's own directory, root first. The page file's own name is the last
/// path segment and contributes no prefix.
pub open spec fn spec_layout_chain(page_rel: Seq<char>, files: Seq<Seq<char>>) -> Seq<Seq<char>> {
    chain_up_to(split_chars(page_rel, '/'), files, split_chars(page_rel, '/').len() as int)
}

pub proof fn lemma_candidates_distinct(segs: Seq<Seq<char>>, k: int)
    requires
        k >= 1,
    ensures
        layout_candidate(segs, k) != layout_candidate(segs, 0),
{
    reveal_strlit("layout.tsx");
    assert(layout_candidate(segs, 0).len() == 10);
    assert(layout_candidate(segs, k).len() == join_chars(segs.take(k), '/').len() + 11);
}

/// Law, first half: with a layout present at every level from the root down,
/// the chain lists every candidate, root first and one per level, so its
/// length is the number of levels and its order is root-to-leaf.
pub proof fn lemma_chain_all_present(segs: Seq<Seq<char>>, files: Seq<Seq<char>>, m: int)
    requires
        0 <= m,
        forall|k: int| 0 <= k < m ==> files.contains(#[trigger] layout_candidate(segs, k)),
    ensures
        chain_up_to(segs, files, m).len() == m,
        forall|k: int|
            0 <= k < m ==> #[trigger] chain_up_to(segs, files, m)[k] == layout_candidate(segs, k),
    decreases m,
{
    if m > 0 {
        lemma_chain_all_present(segs, files, m - 1);
    }
}

/// The chain of a listing holding the root layout starts with it.
pub proof fn lemma_chain_head_root(segs: Seq<Seq<char>>, files: Seq<Seq<char>>, m: int)
    requires
        m >= 1,
        files.contains(layout_candidate(segs, 0)),
    ensures
        chain_up_to(segs, files, m).len() >= 1,
        chain_up_to(segs, files, m)[0] == layout_candidate(segs, 0),
    decreases m,
{
    if m == 1 {
    } else {
        lemma_chain_head_root(segs, files, m - 1);
    }
}

/// Law, second half: removing the root layout from the listing, and nothing
/// else, removes exactly the first element of the chain and keeps the
/// remainder in its relative order.
pub proof fn lemma_chain_drop_root(
    segs: Seq<Seq<char>>,
    files1: Seq<Seq<char>>,
    files2: Seq<Seq<char>>,
    m: int,
)
    requires
        m >= 1,
        files1.contains(layout_candidate(segs, 0)),
        !files2.contains(layout_candidate(segs, 0)),
        forall|p: Seq<char>|
            p != layout_candidate(segs, 0) ==> (files1.contains(p) <==> files2.contains(p)),
    ensures
        chain_up_to(segs, files2, m) == chain_up_to(segs, files1, m).skip(1),
    decreases m,
{
    lemma_chain_head_root(segs, files1, m);
    if m == 1 {
        assert(chain_up_to(segs, files1, 0) =~= Seq::<Seq<char>>::empty());
        assert(chain_up_to(segs, files2, 0) =~= Seq::<Seq<char>>::empty());
        assert(chain_up_to(segs, files1, 1) =~= seq![layout_candidate(segs, 0)]);
        assert(chain_up_to(segs, files2, 1) =~= Seq::<Seq<char>>::empty());
        assert(chain_up_to(segs, files2, 1) =~= chain_up_to(segs, files1, 1).skip(1));
    } else {
        lemma_chain_drop_root(segs, files1, files2, m - 1);
        lemma_chain_head_root(segs, files1, m - 1);
        lemma_candidates_distinct(segs, m - 1);
        assert(files1.contains(layout_candidate(segs, m - 1)) <==> files2.contains(
            layout_candidate(segs, m - 1),
        ));
        assert(chain_up_to(segs, files2, m) =~= chain_up_to(segs, files1, m).skip(1));
    }
}

/// Law at the page level: for a page whose listing holds the root layout,
/// the chain opens with the root layout, and the chain over the same listing
/// with the root layout removed is exactly the remainder, in the same order.
pub proof fn lemma_layout_chain_root_removal(
    page_rel: Seq<char>,
    files1: Seq<Seq<char>>,
    files2: Seq<Seq<char>>,
)
    requires
        files1.contains("layout.tsx"@),
        !files2.contains("layout.tsx"@),
        forall|p: Seq<char>| p != "layout.tsx"@ ==> (files1.contains(p) <==> files2.contains(p)),
    ensures
        spec_layout_chain(page_rel, files1).len() >= 1,
        spec_layout_chain(page_rel, files1)[0] == "layout.tsx"@,
        spec_layout_chain(page_rel, files2) == spec_layout_chain(page_rel, files1).skip(1),
{
    let segs = split_chars(page_rel, '/');
    crate::strutil::lemma_split_chars_nonempty(page_rel, '/');
    assert(layout_candidate(segs, 0) == "layout.tsx"@);
    lemma_chain_head_root(segs, files1, segs.len() as int);
    lemma_chain_drop_root(segs, files1, files2, segs.len() as int);
}

/// Collects the layout chain for a page file, root-to-leaf, as paths relative
/// to the app root.
pub fn find_layout_chain(page_rel: &str, tree: &AppTree) -> (r: Vec<String>)
    ensures
        r.deep_view() == spec_layout_chain(page_rel@, tree.paths()),
{
    let segs = split_str(page_rel, '/');
    let ghost dv = segs.deep_view();
    let n = segs.len();
    let mut chain: Vec<String> = Vec::new();
    let mut prefix = String::new();
    proof {
        assert(chain.deep_view() =~= chain_up_to(dv, tree.paths(), 0));
        assert(dv.take(0) =~= Seq::<Seq<char>>::empty());
    }
    let mut k: usize = 0;
    while k < n
        invariant
            k <= n,
            n == segs.len(),
            dv == segs.deep_view(),
            dv == split_chars(page_rel@, '/'),
            k == 0 ==> prefix@ == Seq::<char>::empty(),
            k > 0 ==> prefix@ == join_chars(dv.take(k as int), '/'),
            chain.deep_view() == chain_up_to(dv, tree.paths(), k as int),
        decreases n - k,
    {
        let mut candidate = String::new();
        if k > 0 {
            candidate.append(prefix.as_str());
            candidate.append("/");
        }
        candidate.append("layout.tsx");
        proof {
            reveal_strlit("/");
            reveal_strlit("layout.tsx");
            if k > 0 {
                assert(candidate@ =~= layout_candidate(dv, k as int));
            } else {
                assert(candidate@ =~= layout_candidate(dv, 0));
            }
        }
        let ghost prev = chain.deep_view();
        if tree.contains(candidate.as_str()) {
            chain.push(candidate);
            proof {
                assert(chain.deep_view() =~= prev + seq![layout_candidate(dv, k as int)]);
            }
        } else {
            proof {
                assert(chain.deep_view() =~= prev + Seq::<Seq<char>>::empty());
            }
        }
        if k > 0 {
            prefix.append("/");
        }
        proof {
            reveal_strlit("/");
        }
        let seg = &segs[k];
        prefix.append(seg.as_str());
        proof {
            assert(dv[k as int] == segs@[k as int]@);
            lemma_join_chars_snoc(dv.take(k as int + 1), '/');
            assert(dv.take(k as int + 1).drop_last() =~= dv.take(k as int));
            assert(dv.take(k as int + 1).last() == dv[k as int]);
            if k == 0 {
                assert(dv.take(1).len() == 1);
                assert(prefix@ =~= join_chars(dv.take(1), '/'));
            } else {
                assert(prefix@ =~= join_chars(dv.take(k as int + 1), '/'));
            }
        }
        k += 1;
    }
    chain
}

/// Resolves the layout chain for a route string: the route's nonempty
/// segments name the directories considered, from the app root down to the
/// route's own directory, and every present `layout.tsx` joins the chain in
/// root-first order, as a path under the app root.

pub struct LayoutResolver {
    pub app_dir: String,
    pub tree: AppTree,
}

/// The nonempty segments of a sequence of segments, in order.
pub open spec fn nonempty_segs(segs: Seq<Seq<char>>) -> Seq<Seq<char>>
    decreases segs.len(),
{
    if segs.len() == 0 {
        Seq::<Seq<char>>::empty()
    } else {
        (if segs[0].len() > 0 {
            seq![segs[0]]
        } else {
            Seq::<Seq<char>>::empty()
        }) + nonempty_segs(segs.skip(1))
    }
}

pub proof fn lemma_nonempty_segs_snoc(segs: Seq<Seq<char>>)
    requires
        segs.len() >= 1,
    ensures
        nonempty_segs(segs) == nonempty_segs(segs.drop_last()) + (if segs.last().len() > 0 {
            seq![segs.last()]
        } else {
            Seq::<Seq<char>>::empty()
        }),
    decreases segs.len(),
{
    let tail = if segs.last().len() > 0 {
        seq![segs.last()]
    } else {
        Seq::<Seq<char>>::empty()
    };
    if segs.len() == 1 {
        assert(nonempty_segs(segs.skip(1)) =~= Seq::<Seq<char>>::empty());
        assert(nonempty_segs(segs.drop_last()) =~= Seq::<Seq<char>>::empty());
        assert(nonempty_segs(segs) =~= nonempty_segs(segs.drop_last()) + tail);
    } else {
        lemma_nonempty_segs_snoc(segs.skip(1));
        assert(segs.skip(1).drop_last() =~= segs.drop_last().skip(1));
        assert(segs.skip(1).last() == segs.last());
        assert(segs.drop_last()[0] == segs[0]);
        assert(nonempty_segs(segs) =~= nonempty_segs(segs.drop_last()) + tail);
    }
}

/// The directory segments a route names: its `/`-separated pieces with every
/// empty piece (leading, trailing, or doubled separators) dropped.
pub open spec fn route_dir_segs(route: Seq<char>) -> Seq<Seq<char>> {
    nonempty_segs(split_chars(route, '/'))
}

/// Each path in `paths` placed under the directory `dir`.
pub open spec fn under_dir(dir: Seq<char>, paths: Seq<Seq<char>>) -> Seq<Seq<char>> {
    paths.map_values(|p: Seq<char>| dir + seq!['/'] + p)
}

/// The absolute layout chain `resolve_layouts` answers for a route: the
/// route's directory segments are walked from the root, the root itself
/// included, and present layouts are returned under the app directory.
pub open spec fn spec_resolve_layouts(
    route: Seq<char>,
    app_dir: Seq<char>,
    files: Seq<Seq<char>>,
) -> Seq<Seq<char>> {
    under_dir(
        app_dir,
        chain_up_to(route_dir_segs(route), files, route_dir_segs(route).len() as int + 1),
    )
}

impl LayoutResolver {
    /// A resolver over one app directory, whose listing the caller supplies.
    pub fn new(app_dir: String, tree: AppTree) -> (r: LayoutResolver)
        ensures
            r.app_dir == app_dir,
            r.tree == tree,
    {
        LayoutResolver { app_dir, tree }
    }

    /// Collects every layout that applies to the route, outermost first. The
    /// root layout is always considered; deeper candidates follow the route's
    /// nonempty segments. Never fails: a missing layout is not an error.
    pub fn resolve_layouts(&self, route: &str) -> (r: Result<Vec<String>, SSRError>)
        ensures
            r matches Ok(chain) && chain.deep_view() == spec_resolve_layouts(
                route@,
                self.app_dir@,
                self.tree.paths(),
            ),
    {
        let segs0 = split_str(route, '/');
        let mut segs: Vec<String> = Vec::new();
        let ghost s0 = segs0.deep_view();
        proof {
            assert(segs.deep_view() =~= nonempty_segs(s0.take(0)));
            assert(s0.take(0) =~= Seq::<Seq<char>>::empty());
        }
        let m = segs0.len();
        let mut j: usize = 0;
        while j < m
            invariant
                j <= m,
                m == segs0.len(),
                s0 == segs0.deep_view(),
                segs.deep_view() == nonempty_segs(s0.take(j as int)),
            decreases m - j,
        {
            let ghost prev = segs.deep_view();
            if segs0[j].as_str().unicode_len() > 0 {
                let piece = segs0[j].clone();
                segs.push(piece);
                proof {
                    assert(segs.deep_view() =~= prev + seq![s0[j as int]]);
                }
            }
            proof {
                lemma_nonempty_segs_snoc(s0.take(j as int + 1));
                assert(s0.take(j as int + 1).drop_last() =~= s0.take(j as int));
                assert(s0.take(j as int + 1).last() == s0[j as int]);
                if s0[j as int].len() == 0 {
                    assert(segs.deep_view() =~= prev + Seq::<Seq<char>>::empty());
                }
            }
            j += 1;
        }
        proof {
            assert(s0.take(m as int) =~= s0);
        }
        let ghost dv = segs.deep_view();
        let n = segs.len();
        let mut chain: Vec<String> = Vec::new();
        let mut prefix = String::new();
        proof {
            assert(chain.deep_view() =~= under_dir(self.app_dir@, chain_up_to(dv, self.tree.paths(), 0)));
        }
        let mut k: usize = 0;
        while k < n
            invariant
                k <= n,
                n == segs.len(),
                dv == segs.deep_view(),
                dv == route_dir_segs(route@),
                k == 0 ==> prefix@ == Seq::<char>::empty(),
                k > 0 ==> prefix@ == join_chars(dv.take(k as int), '/'),
                chain.deep_view() == under_dir(
                    self.app_dir@,
                    chain_up_to(dv, self.tree.paths(), k as int),
                ),
            decreases n - k,
        {
            let mut candidate = String::new();
            if k > 0 {
                candidate.append(prefix.as_str());
                candidate.append("/");
            }
            candidate.append("layout.tsx");
            proof {
                reveal_strlit("/");
                reveal_strlit("layout.tsx");
                if k > 0 {
                    assert(candidate@ =~= layout_candidate(dv, k as int));
                } else {
                    assert(candidate@ =~= layout_candidate(dv, 0));
                }
            }
            let ghost prev = chain.deep_view();
            if self.tree.contains(candidate.as_str()) {
                let mut abs = String::new();
                abs.append(self.app_dir.as_str());
                abs.append("/");
                abs.append(candidate.as_str());
                chain.push(abs);
                proof {
                    reveal_strlit("/");
                    assert(chain.deep_view() =~~= prev + seq![
                        self.app_dir@ + seq!['/'] + layout_candidate(dv, k as int),
                    ]);
                    assert(chain.deep_view() =~~= under_dir(
                        self.app_dir@,
                        chain_up_to(dv, self.tree.paths(), k as int + 1),
                    ));
                }
            } else {
                proof {
                    assert(chain_up_to(dv, self.tree.paths(), k as int + 1) =~= chain_up_to(
                        dv,
                        self.tree.paths(),
                        k as int,
                    ));
                }
            }
            if k > 0 {
                prefix.append("/");
            }
            proof {
                reveal_strlit("/");
            }
            let seg = &segs[k];
            prefix.append(seg.as_str());
            proof {
                assert(dv[k as int] == segs@[k as int]@);
                lemma_join_chars_snoc(dv.take(k as int + 1), '/');
                assert(dv.take(k as int + 1).drop_last() =~= dv.take(k as int));
                assert(dv.take(k as int + 1).last() == dv[k as int]);
                if k == 0 {
                    assert(dv.take(1).len() == 1);
                    assert(prefix@ =~= join_chars(dv.take(1), '/'));
                } else {
                    assert(prefix@ =~= join_chars(dv.take(k as int + 1), '/'));
                }
            }
            k += 1;
        }
        let mut candidate = String::new();
        if n > 0 {
            candidate.append(prefix.as_str());
            candidate.append("/");
        }
        candidate.append("layout.tsx");
        proof {
            reveal_strlit("/");
            reveal_strlit("layout.tsx");
            assert(dv.take(n as int) =~= dv);
            if n > 0 {
                assert(candidate@ =~= layout_candidate(dv, n as int));
            } else {
                assert(candidate@ =~= layout_candidate(dv, 0));
            }
        }
        let ghost prev = chain.deep_view();
        if self.tree.contains(candidate.as_str()) {
            let mut abs = String::new();
            abs.append(self.app_dir.as_str());
            abs.append("/");
            abs.append(candidate.as_str());
            chain.push(abs);
            proof {
                reveal_strlit("/");
                assert(chain.deep_view() =~~= prev + seq![
                    self.app_dir@ + seq!['/'] + layout_candidate(dv, n as int),
                ]);
                assert(chain.deep_view() =~~= under_dir(
                    self.app_dir@,
                    chain_up_to(dv, self.tree.paths(), n as int + 1),
                ));
            }
        } else {
            proof {
                assert(chain_up_to(dv, self.tree.paths(), n as int + 1) =~= chain_up_to(
                    dv,
                    self.tree.paths(),
                    n as int,
                ));
            }
        }
        Ok(chain)
    }
}

} // verus!
