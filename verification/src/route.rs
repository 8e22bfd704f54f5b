//! Route patterns: deriving a pattern from a page file's app-relative path,
//! and matching a concrete route string against a pattern, binding named
//! parameters in pattern order.

use vstd::prelude::*;

use crate::strutil::split_chars;
use crate::strutil::split_str;
use crate::strutil::str_eq;

verus! {

/// A directory segment rendered as a pattern segment: a `[name]` segment
/// becomes the named slot `::name`, anything else stands as itself.
pub open spec fn pattern_seg(seg: Seq<char>) -> Seq<char> {
    if seg.len() >= 2 && seg[0] == '[' && seg[seg.len() - 1] == ']' {
        seq![':', ':'] + seg.subrange(1, seg.len() - 1)
    } else {
        seg
    }
}

/// The pattern text for a nonempty segment list: each segment prefixed by `/`.
pub open spec fn pattern_body(segs: Seq<Seq<char>>) -> Seq<char>
    decreases segs.len(),
{
    if segs.len() == 0 {
        Seq::<char>::empty()
    } else {
        seq!['/'] + pattern_seg(segs[0]) + pattern_body(segs.skip(1))
    }
}

pub proof fn lemma_pattern_body_snoc(segs: Seq<Seq<char>>)
    requires
        segs.len() >= 1,
    ensures
        pattern_body(segs) == pattern_body(segs.drop_last()) + seq!['/'] + pattern_seg(
            segs.last(),
        ),
    decreases segs.len(),
{
    if segs.len() == 1 {
        assert(segs.drop_last() =~= Seq::<Seq<char>>::empty());
        assert(segs.skip(1) =~= Seq::<Seq<char>>::empty());
        assert(pattern_body(segs) =~= pattern_body(segs.drop_last()) + seq!['/'] + pattern_seg(
            segs.last(),
        ));
    } else {
        lemma_pattern_body_snoc(segs.skip(1));
        assert(segs.skip(1).drop_last() =~= segs.drop_last().skip(1));
        assert(segs.skip(1).last() == segs.last());
        assert(segs.drop_last()[0] == segs[0]);
        assert(pattern_body(segs) =~= pattern_body(segs.drop_last()) + seq!['/'] + pattern_seg(
            segs.last(),
        ));
    }
}

/// The route pattern of a page file's app-relative path: the trailing
/// `page.tsx` component is dropped, the remaining segments are rendered with
/// `pattern_seg`, and an empty remainder maps to the root pattern `/`.
pub open spec fn spec_route_pattern(rel: Seq<char>) -> Seq<char> {
    let all = split_chars(rel, '/');
    let segs = if all.len() > 0 && all.last() == "page.tsx"@ {
        all.drop_last()
    } else {
        all
    };
    if segs.len() == 0 {
        seq!['/']
    } else {
        pattern_body(segs)
    }
}

/// Derives the route pattern from a page file's path relative to the app
/// root, for example `about/page.tsx` to `/about` and `blog/[slug]/page.tsx`
/// to `/blog/::slug`.
pub fn file_path_to_route_pattern(relative_path: &str) -> (r: String)
    ensures
        r@ == spec_route_pattern(relative_path@),
{
    let mut segs = split_str(relative_path, '/');
    let last_is_page = str_eq(segs[segs.len() - 1].as_str(), "page.tsx");
    proof {
        assert(segs.deep_view().last() == segs@[segs@.len() - 1]@);
    }
    if last_is_page {
        segs.pop();
    }
    let ghost goal = if segs.deep_view().len() == 0 {
        seq!['/']
    } else {
        pattern_body(segs.deep_view())
    };
    proof {
        assert(segs.deep_view() =~= if last_is_page {
            split_chars(relative_path@, '/').drop_last()
        } else {
            split_chars(relative_path@, '/')
        });
        assert(goal == spec_route_pattern(relative_path@));
    }
    let mut pattern = String::new();
    let n = segs.len();
    if n == 0 {
        pattern.append("/");
        proof {
            reveal_strlit("/");
            assert(pattern@ =~= seq!['/']);
        }
        return pattern;
    }
    let mut i: usize = 0;
    while i < n
        invariant
            i <= n,
            n == segs.len(),
            n > 0,
            goal == pattern_body(segs.deep_view()),
            pattern@ == pattern_body(segs.deep_view().take(i as int)),
        decreases n - i,
    {
        let ghost dv = segs.deep_view();
        let ghost before = pattern@;
        pattern.append("/");
        let seg = &segs[i];
        let m = seg.as_str().unicode_len();
        let wrapped = m >= 2 && seg.as_str().get_char(0) == '[' && seg.as_str().get_char(m - 1)
            == ']';
        if wrapped {
            pattern.append("::");
            pattern.append(seg.as_str().substring_char(1, m - 1));
        } else {
            pattern.append(seg.as_str());
        }
        proof {
            reveal_strlit("/");
            reveal_strlit("::");
            assert("/"@ =~= seq!['/']);
            assert("::"@ =~= seq![':', ':']);
            assert(dv[i as int] == segs@[i as int]@);
            assert(pattern@ =~= before + seq!['/'] + pattern_seg(dv[i as int]));
            lemma_pattern_body_snoc(dv.take(i as int + 1));
            assert(dv.take(i as int + 1).drop_last() =~= dv.take(i as int));
            assert(dv.take(i as int + 1).last() == dv[i as int]);
        }
        i += 1;
    }
    proof {
        assert(segs.deep_view().take(n as int) =~= segs.deep_view());
    }
    pattern
}

/// A pattern segment that is a named slot: it begins with `::`.
pub open spec fn is_slot(seg: Seq<char>) -> bool {
    seg.len() >= 2 && seg[0] == ':' && seg[1] == ':'
}

/// Whether one pattern segment accepts one route segment: a slot accepts any
/// nonempty segment, a literal only its exact text.
pub open spec fn seg_matches(p: Seq<char>, r: Seq<char>) -> bool {
    if is_slot(p) {
        r.len() > 0
    } else {
        p == r
    }
}

/// Whether a pattern's segments accept a route's segments: equal counts and a
/// segment-wise match.
pub open spec fn segs_match(ps: Seq<Seq<char>>, rs: Seq<Seq<char>>) -> bool {
    ps.len() == rs.len() && forall|i: int| 0 <= i < ps.len() ==> seg_matches(ps[i], rs[i])
}

/// The parameter bindings of a match, in pattern order: each slot contributes
/// its name (the text after `::`) bound to the route segment in its position.
pub open spec fn params_of(ps: Seq<Seq<char>>, rs: Seq<Seq<char>>) -> Seq<(Seq<char>, Seq<char>)>
    decreases ps.len(),
{
    if ps.len() == 0 || rs.len() == 0 {
        Seq::<(Seq<char>, Seq<char>)>::empty()
    } else {
        (if is_slot(ps[0]) {
            seq![(ps[0].skip(2), rs[0])]
        } else {
            Seq::<(Seq<char>, Seq<char>)>::empty()
        }) + params_of(ps.skip(1), rs.skip(1))
    }
}

pub proof fn lemma_params_of_snoc(ps: Seq<Seq<char>>, rs: Seq<Seq<char>>)
    requires
        ps.len() == rs.len(),
        ps.len() >= 1,
    ensures
        params_of(ps, rs) == params_of(ps.drop_last(), rs.drop_last()) + (if is_slot(ps.last()) {
            seq![(ps.last().skip(2), rs.last())]
        } else {
            Seq::<(Seq<char>, Seq<char>)>::empty()
        }),
    decreases ps.len(),
{
    let tail = if is_slot(ps.last()) {
        seq![(ps.last().skip(2), rs.last())]
    } else {
        Seq::<(Seq<char>, Seq<char>)>::empty()
    };
    if ps.len() == 1 {
        assert(params_of(ps.skip(1), rs.skip(1)) =~= Seq::<(Seq<char>, Seq<char>)>::empty());
        assert(params_of(ps.drop_last(), rs.drop_last()) =~= Seq::<(
            Seq<char>,
            Seq<char>,
        )>::empty());
        assert(params_of(ps, rs) =~= params_of(ps.drop_last(), rs.drop_last()) + tail);
    } else {
        lemma_params_of_snoc(ps.skip(1), rs.skip(1));
        assert(ps.skip(1).drop_last() =~= ps.drop_last().skip(1));
        assert(rs.skip(1).drop_last() =~= rs.drop_last().skip(1));
        assert(ps.skip(1).last() == ps.last());
        assert(rs.skip(1).last() == rs.last());
        assert(ps.drop_last()[0] == ps[0]);
        assert(rs.drop_last()[0] == rs[0]);
        assert(params_of(ps, rs) =~= params_of(ps.drop_last(), rs.drop_last()) + tail);
    }
}

/// The result of matching `route` against `pattern`: the bound parameters
/// when every segment matches, nothing otherwise.
pub open spec fn spec_match_route(pattern: Seq<char>, route: Seq<char>) -> Option<
    Seq<(Seq<char>, Seq<char>)>,
> {
    let ps = split_chars(pattern, '/');
    let rs = split_chars(route, '/');
    if segs_match(ps, rs) {
        Some(params_of(ps, rs))
    } else {
        None
    }
}

/// Matches a route string against a pattern segment by segment: literal
/// segments must be equal, each `::name` slot binds exactly one nonempty
/// segment, and the segment counts must agree; no partial or greedy matching.
pub fn match_route_pattern(pattern: &str, route: &str) -> (r: Option<Vec<(String, String)>>)
    ensures
        r.deep_view() == spec_match_route(pattern@, route@),
{
    let ps = split_str(pattern, '/');
    let rs = split_str(route, '/');
    let ghost psv = ps.deep_view();
    let ghost rsv = rs.deep_view();
    if ps.len() != rs.len() {
        proof {
            assert(!segs_match(psv, rsv));
        }
        return None;
    }
    let n = ps.len();
    let mut params: Vec<(String, String)> = Vec::new();
    proof {
        assert(params.deep_view() =~= Seq::<(Seq<char>, Seq<char>)>::empty());
        assert(psv.take(0) =~= Seq::<Seq<char>>::empty());
        assert(rsv.take(0) =~= Seq::<Seq<char>>::empty());
    }
    let mut i: usize = 0;
    while i < n
        invariant
            i <= n,
            n == ps.len() == rs.len(),
            psv == ps.deep_view(),
            rsv == rs.deep_view(),
            psv == split_chars(pattern@, '/'),
            rsv == split_chars(route@, '/'),
            psv.len() == rsv.len() == n,
            forall|k: int| 0 <= k < i ==> seg_matches(psv[k], rsv[k]),
            params.deep_view() == params_of(psv.take(i as int), rsv.take(i as int)),
        decreases n - i,
    {
        let ghost prev = params.deep_view();
        let p = &ps[i];
        let m = p.as_str().unicode_len();
        proof {
            assert(psv[i as int] == ps@[i as int]@);
            assert(rsv[i as int] == rs@[i as int]@);
        }
        let slot = m >= 2 && p.as_str().get_char(0) == ':' && p.as_str().get_char(1) == ':';
        if slot {
            if rs[i].as_str().unicode_len() == 0 {
                proof {
                    assert(!seg_matches(psv[i as int], rsv[i as int]));
                    assert(!segs_match(psv, rsv));
                }
                return None;
            }
            let name = String::from_str(p.as_str().substring_char(2, m));
            let value = rs[i].clone();
            params.push((name, value));
            proof {
                assert(name@ =~= psv[i as int].skip(2));
                assert(params.deep_view() =~= prev + seq![
                    (psv[i as int].skip(2), rsv[i as int]),
                ]);
            }
        } else {
            if !str_eq(p.as_str(), rs[i].as_str()) {
                proof {
                    assert(!seg_matches(psv[i as int], rsv[i as int]));
                    assert(!segs_match(psv, rsv));
                }
                return None;
            }
            proof {
                assert(params.deep_view() =~= prev);
            }
        }
        proof {
            lemma_params_of_snoc(psv.take(i as int + 1), rsv.take(i as int + 1));
            assert(psv.take(i as int + 1).drop_last() =~= psv.take(i as int));
            assert(rsv.take(i as int + 1).drop_last() =~= rsv.take(i as int));
            assert(psv.take(i as int + 1).last() == psv[i as int]);
            assert(rsv.take(i as int + 1).last() == rsv[i as int]);
        }
        i += 1;
    }
    proof {
        assert(psv.take(n as int) =~= psv);
        assert(rsv.take(n as int) =~= rsv);
        assert(segs_match(psv, rsv));
    }
    Some(params)
}

/// All trailing `/` characters removed.
pub open spec fn drop_trailing_slashes(s: Seq<char>) -> Seq<char>
    decreases s.len(),
{
    if s.len() > 0 && s.last() == '/' {
        drop_trailing_slashes(s.drop_last())
    } else {
        s
    }
}

/// A route string normalized for matching: trailing slashes are stripped,
/// except that the root route stays `/`.
pub open spec fn spec_normalize_route(route: Seq<char>) -> Seq<char> {
    let t = drop_trailing_slashes(route);
    if t.len() == 0 {
        seq!['/']
    } else {
        t
    }
}

/// Strips trailing slashes from a route, keeping the root route as `/`;
/// faithful to `spec_normalize_route`.
pub fn normalize_route(route: &str) -> (r: String)
    ensures
        r@ == spec_normalize_route(route@),
{
    let n = route.unicode_len();
    let mut e = n;
    proof {
        assert(route@.take(n as int) =~= route@);
    }
    while e > 0
        invariant
            e <= n,
            n == route@.len(),
            drop_trailing_slashes(route@) == drop_trailing_slashes(route@.take(e as int)),
        decreases e,
    {
        if route.get_char(e - 1) != '/' {
            proof {
                assert(route@.take(e as int).last() != '/');
                assert(drop_trailing_slashes(route@.take(e as int)) == route@.take(e as int));
            }
            let out = String::from_str(route.substring_char(0, e));
            proof {
                assert(out@ =~= route@.take(e as int));
            }
            return out;
        }
        proof {
            assert(route@.take(e as int).last() == '/');
            assert(route@.take(e as int).drop_last() =~= route@.take(e as int - 1));
        }
        e -= 1;
    }
    proof {
        assert(route@.take(0) =~= Seq::<char>::empty());
        assert(drop_trailing_slashes(route@).len() == 0);
    }
    let out = String::from_str("/");
    proof {
        reveal_strlit("/");
        assert(out@ =~= spec_normalize_route(route@));
    }
    out
}

} // verus!
