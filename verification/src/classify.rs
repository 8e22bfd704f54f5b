//! Import classification: deciding, for each import specifier, whether it is
//! walked into the dependency graph, passed through to the runtime, dropped
//! from the server bundle, or replaced by a server-safe shim; and resolving
//! walked specifiers to a file of the project tree.

use vstd::prelude::*;

use crate::error::SSRError;
use crate::importline::spec_parse_import;
use crate::importline::parse_import_line;
use crate::importline::ImportShape;
use crate::importline::ParsedImport;
use crate::strutil::ends_with_str;
use crate::strutil::join_chars;
use crate::strutil::join_str;
use crate::strutil::seq_ends_with;
use crate::strutil::seq_starts_with;
use crate::strutil::split_chars;
use crate::strutil::split_str;
use crate::strutil::starts_with_str;
use crate::strutil::str_eq;
use crate::tree::AppTree;

verus! {

/// What becomes of one import specifier in the server bundle.
pub enum ImportDisposition {
    /// A local module: resolved to this project file and graph-walked.
    Recurse(String),
    /// Left as it stands; the runtime satisfies it.
    PassThrough,
    /// Dropped entirely from the server bundle.
    Elide,
    /// Replaced by this server-safe shim declaration.
    Stub(String),
}

/// The classification alone, without resolution or shim text.
#[derive(PartialEq, Eq, Structural, Debug, Clone, Copy)]
pub enum ImportKind {
    Elide,
    PassThrough,
    Stub,
    Recurse,
}

/// A stylesheet or image specifier, dropped from the server bundle.
pub open spec fn has_asset_ext(s: Seq<char>) -> bool {
    ||| seq_ends_with(s, ".css"@)
    ||| seq_ends_with(s, ".scss"@)
    ||| seq_ends_with(s, ".sass"@)
    ||| seq_ends_with(s, ".less"@)
    ||| seq_ends_with(s, ".png"@)
    ||| seq_ends_with(s, ".jpg"@)
    ||| seq_ends_with(s, ".jpeg"@)
    ||| seq_ends_with(s, ".gif"@)
    ||| seq_ends_with(s, ".svg"@)
    ||| seq_ends_with(s, ".webp"@)
    ||| seq_ends_with(s, ".ico"@)
}

/// A library that only works in a browser: DOM manipulation, canvas,
/// client-side routing, browser storage, analytics.
pub open spec fn is_client_only_lib(s: Seq<char>) -> bool {
    ||| s == "jquery"@
    ||| s == "d3"@
    ||| s == "three"@
    ||| s == "chart.js"@
    ||| s == "react-router-dom"@
    ||| s == "localforage"@
    ||| s == "analytics"@
}

/// A specifier the server run satisfies: platform primitives, a small
/// allow-list of universally safe utilities, and the UI-library imports the
/// renderer provides as pre-supplied globals.
pub open spec fn is_server_safe_lib(s: Seq<char>) -> bool {
    ||| s == "fs"@
    ||| s == "path"@
    ||| s == "crypto"@
    ||| s == "os"@
    ||| s == "url"@
    ||| s == "util"@
    ||| s == "lodash"@
    ||| s == "dayjs"@
    ||| s == "uuid"@
    ||| s == "react"@
    ||| s == "react-dom"@
    ||| s == "react-dom/server"@
    ||| s == "react-dom/client"@
}

/// A framework helper with no server equivalent, replaced by a shim.
pub open spec fn is_stubbed_lib(s: Seq<char>) -> bool {
    ||| s == "next/link"@
    ||| s == "next/image"@
    ||| s == "next/head"@
    ||| s == "next/router"@
}

/// The server-safe shim that stands in for a stubbed helper.
pub open spec fn stub_text(s: Seq<char>) -> Seq<char> {
    if s == "next/link"@ {
        "const Link = (props) => React.createElement('a', { href: props.href }, props.children);"@
    } else if s == "next/image"@ {
        "const Image = (props) => React.createElement('img', { src: props.src, alt: props.alt });"@
    } else if s == "next/head"@ {
        "const Head = (props) => null;"@
    } else {
        "const useRouter = () => ({ route: '/', query: {}, push: () => {}, replace: () => {} });"@
    }
}

/// A relative specifier, resolved against the importing file's directory.
pub open spec fn is_relative_spec(s: Seq<char>) -> bool {
    seq_starts_with(s, "./"@) || seq_starts_with(s, "../"@)
}

/// A project-root-aliased specifier.
pub open spec fn is_root_alias_spec(s: Seq<char>) -> bool {
    seq_starts_with(s, "@/"@)
}

/// The classification of a specifier: assets and client-only libraries are
/// elided, the known server-safe names pass through, framework helpers are
/// stubbed, local specifiers recurse, and anything else passes through by
/// default.
pub open spec fn spec_import_kind(s: Seq<char>) -> ImportKind {
    if has_asset_ext(s) || is_client_only_lib(s) {
        ImportKind::Elide
    } else if is_server_safe_lib(s) {
        ImportKind::PassThrough
    } else if is_stubbed_lib(s) {
        ImportKind::Stub
    } else if is_relative_spec(s) || is_root_alias_spec(s) {
        ImportKind::Recurse
    } else {
        ImportKind::PassThrough
    }
}

/// Decides a specifier's classification; faithful to `spec_import_kind`.
pub fn classify_specifier(s: &str) -> (r: ImportKind)
    ensures
        r == spec_import_kind(s@),
{
    if ends_with_str(s, ".css") || ends_with_str(s, ".scss") || ends_with_str(s, ".sass")
        || ends_with_str(s, ".less") || ends_with_str(s, ".png") || ends_with_str(s, ".jpg")
        || ends_with_str(s, ".jpeg") || ends_with_str(s, ".gif") || ends_with_str(s, ".svg")
        || ends_with_str(s, ".webp") || ends_with_str(s, ".ico") || str_eq(s, "jquery") || str_eq(
        s,
        "d3",
    ) || str_eq(s, "three") || str_eq(s, "chart.js") || str_eq(s, "react-router-dom") || str_eq(
        s,
        "localforage",
    ) || str_eq(s, "analytics") {
        ImportKind::Elide
    } else if str_eq(s, "fs") || str_eq(s, "path") || str_eq(s, "crypto") || str_eq(s, "os")
        || str_eq(s, "url") || str_eq(s, "util") || str_eq(s, "lodash") || str_eq(s, "dayjs")
        || str_eq(s, "uuid") || str_eq(s, "react") || str_eq(s, "react-dom") || str_eq(
        s,
        "react-dom/server",
    ) || str_eq(s, "react-dom/client") {
        ImportKind::PassThrough
    } else if str_eq(s, "next/link") || str_eq(s, "next/image") || str_eq(s, "next/head")
        || str_eq(s, "next/router") {
        ImportKind::Stub
    } else if starts_with_str(s, "./") || starts_with_str(s, "../") || starts_with_str(s, "@/") {
        ImportKind::Recurse
    } else {
        ImportKind::PassThrough
    }
}

/// The shim for a stubbed specifier; faithful to `stub_text`.
pub fn stub_source(s: &str) -> (r: String)
    ensures
        r@ == stub_text(s@),
{
    if str_eq(s, "next/link") {
        String::from_str(
            "const Link = (props) => React.createElement('a', { href: props.href }, props.children);",
        )
    } else if str_eq(s, "next/image") {
        String::from_str(
            "const Image = (props) => React.createElement('img', { src: props.src, alt: props.alt });",
        )
    } else if str_eq(s, "next/head") {
        String::from_str("const Head = (props) => null;")
    } else {
        String::from_str(
            "const useRouter = () => ({ route: '/', query: {}, push: () => {}, replace: () => {} });",
        )
    }
}

/// One step of lexical path normalization: empty and `.` segments vanish,
/// `..` removes the segment before it (and is dropped at the root), anything
/// else is kept.
pub open spec fn norm_step(acc: Seq<Seq<char>>, seg: Seq<char>) -> Seq<Seq<char>> {
    if seg.len() == 0 || seg == "."@ {
        acc
    } else if seg == ".."@ {
        if acc.len() > 0 {
            acc.drop_last()
        } else {
            acc
        }
    } else {
        acc.push(seg)
    }
}

/// Lexical normalization of a segment list, folded from the left.
pub open spec fn norm_from(acc: Seq<Seq<char>>, rest: Seq<Seq<char>>) -> Seq<Seq<char>>
    decreases rest.len(),
{
    if rest.len() == 0 {
        acc
    } else {
        norm_from(norm_step(acc, rest[0]), rest.skip(1))
    }
}

/// Normalizes path segments; faithful to `norm_from` over an empty start.
pub fn normalize_segments(segs: &Vec<String>) -> (r: Vec<String>)
    ensures
        r.deep_view() == norm_from(Seq::<Seq<char>>::empty(), segs.deep_view()),
{
    let ghost dv = segs.deep_view();
    let mut acc: Vec<String> = Vec::new();
    proof {
        assert(acc.deep_view() =~= Seq::<Seq<char>>::empty());
        assert(dv.skip(0) =~= dv);
    }
    let n = segs.len();
    let mut i: usize = 0;
    while i < n
        invariant
            i <= n,
            n == segs.len(),
            dv == segs.deep_view(),
            norm_from(acc.deep_view(), dv.skip(i as int)) == norm_from(
                Seq::<Seq<char>>::empty(),
                dv,
            ),
        decreases n - i,
    {
        let ghost prev = acc.deep_view();
        proof {
            assert(dv.skip(i as int)[0] == dv[i as int]);
            assert(dv.skip(i as int).skip(1) =~= dv.skip(i as int + 1));
            assert(dv[i as int] == segs@[i as int]@);
        }
        let seg = &segs[i];
        if seg.as_str().unicode_len() == 0 || str_eq(seg.as_str(), ".") {
            proof {
                assert(norm_step(prev, dv[i as int]) =~= prev);
            }
        } else if str_eq(seg.as_str(), "..") {
            if acc.len() > 0 {
                acc.pop();
                proof {
                    assert(acc.deep_view() =~= prev.drop_last());
                }
            }
        } else {
            let piece = seg.clone();
            acc.push(piece);
            proof {
                assert(acc.deep_view() =~= prev.push(dv[i as int]));
            }
        }
        i += 1;
    }
    proof {
        assert(dv.skip(n as int) =~= Seq::<Seq<char>>::empty());
    }
    acc
}

/// The candidate files tried for a resolved base path, in order: the literal
/// path, the known source extensions appended, then an index file of each
/// extension inside the path taken as a directory.
pub open spec fn import_candidates(base: Seq<char>) -> Seq<Seq<char>> {
    seq![
        base,
        base + ".tsx"@,
        base + ".ts"@,
        base + ".jsx"@,
        base + ".js"@,
        base + "/index.tsx"@,
        base + "/index.ts"@,
        base + "/index.jsx"@,
        base + "/index.js"@,
    ]
}

/// The first candidate present in the listing.
pub open spec fn first_present(cands: Seq<Seq<char>>, files: Seq<Seq<char>>) -> Option<Seq<char>>
    decreases cands.len(),
{
    if cands.len() == 0 {
        None
    } else if files.contains(cands[0]) {
        Some(cands[0])
    } else {
        first_present(cands.skip(1), files)
    }
}

/// Resolution of a base path against the listing.
pub open spec fn spec_resolve_base(base: Seq<char>, files: Seq<Seq<char>>) -> Option<Seq<char>> {
    first_present(import_candidates(base), files)
}

/// Tries the candidate files for `base` in order; faithful to
/// `spec_resolve_base`.
fn resolve_base(base: &str, tree: &AppTree) -> (r: Option<String>)
    ensures
        r.deep_view() == spec_resolve_base(base@, tree.paths()),
{
    let mut cands: Vec<String> = Vec::new();
    cands.push(String::from_str(base));
    let mut c1 = String::from_str(base);
    c1.append(".tsx");
    cands.push(c1);
    let mut c2 = String::from_str(base);
    c2.append(".ts");
    cands.push(c2);
    let mut c3 = String::from_str(base);
    c3.append(".jsx");
    cands.push(c3);
    let mut c4 = String::from_str(base);
    c4.append(".js");
    cands.push(c4);
    let mut c5 = String::from_str(base);
    c5.append("/index.tsx");
    cands.push(c5);
    let mut c6 = String::from_str(base);
    c6.append("/index.ts");
    cands.push(c6);
    let mut c7 = String::from_str(base);
    c7.append("/index.jsx");
    cands.push(c7);
    let mut c8 = String::from_str(base);
    c8.append("/index.js");
    cands.push(c8);
    let ghost cv = cands.deep_view();
    proof {
        assert(cv =~= import_candidates(base@));
        assert(cv.skip(0) =~= cv);
    }
    let n = cands.len();
    let mut i: usize = 0;
    while i < n
        invariant
            i <= n,
            n == cands.len(),
            cv == cands.deep_view(),
            cv == import_candidates(base@),
            first_present(cv, tree.paths()) == first_present(cv.skip(i as int), tree.paths()),
        decreases n - i,
    {
        proof {
            assert(cv.skip(i as int)[0] == cv[i as int]);
            assert(cv.skip(i as int).skip(1) =~= cv.skip(i as int + 1));
            assert(cv[i as int] == cands@[i as int]@);
        }
        if tree.contains(cands[i].as_str()) {
            let found = cands[i].clone();
            return Some(found);
        }
        i += 1;
    }
    proof {
        assert(cv.skip(n as int) =~= Seq::<Seq<char>>::empty());
    }
    None
}

/// The segments of the importing file's directory: its path split on `/`
/// with the file's own name dropped.
pub open spec fn parent_segs(p: Seq<char>) -> Seq<Seq<char>> {
    split_chars(p, '/').drop_last()
}

/// Resolution of a relative specifier: the importing file's directory
/// segments, then the specifier's segments, normalized and rejoined, tried
/// through the candidate list.
pub open spec fn spec_resolve_relative(
    import: Seq<char>,
    cur: Seq<char>,
    files: Seq<Seq<char>>,
) -> Option<Seq<char>> {
    spec_resolve_base(
        join_chars(
            norm_from(Seq::<Seq<char>>::empty(), parent_segs(cur) + split_chars(import, '/')),
            '/',
        ),
        files,
    )
}

/// Resolution of a recursing specifier: a root alias resolves from the
/// project root, a relative specifier from the importing file's directory.
pub open spec fn spec_resolve_recurse(
    import: Seq<char>,
    cur: Seq<char>,
    files: Seq<Seq<char>>,
) -> Option<Seq<char>> {
    if is_root_alias_spec(import) {
        spec_resolve_base(
            join_chars(
                norm_from(Seq::<Seq<char>>::empty(), split_chars(import.skip(2), '/')),
                '/',
            ),
            files,
        )
    } else {
        spec_resolve_relative(import, cur, files)
    }
}

/// Resolves an import specifier to a file of the listing. A relative
/// specifier is resolved against the importing file's directory, trying the
/// literal path, the known extensions, then index files, and fails when none
/// exists; any other specifier is answered as it stands, untouched.
pub fn resolve_import(import_path: &str, current_file: &str, tree: &AppTree) -> (r: Result<
    String,
    SSRError,
>)
    ensures
        is_relative_spec(import_path@) ==> match spec_resolve_relative(
            import_path@,
            current_file@,
            tree.paths(),
        ) {
            Some(p) => r matches Ok(c) && c@ == p,
            None => {
                &&& r matches Err(e)
                &&& e matches SSRError::UnresolvedImport(s, m)
                &&& s@ == import_path@
                &&& m@ == current_file@
            },
        },
        !is_relative_spec(import_path@) ==> (r matches Ok(c) && c@ == import_path@),
{
    if starts_with_str(import_path, "./") || starts_with_str(import_path, "../") {
        let mut all: Vec<String> = Vec::new();
        let cur_segs = split_str(current_file, '/');
        let ghost curv = cur_segs.deep_view();
        let cn = cur_segs.len();
        let mut i: usize = 0;
        proof {
            assert(all.deep_view() =~= curv.drop_last().take(0));
        }
        while i < cn - 1
            invariant
                cn >= 1,
                i <= cn - 1,
                cn == cur_segs.len(),
                curv == cur_segs.deep_view(),
                all.deep_view() == curv.drop_last().take(i as int),
            decreases cn - 1 - i,
        {
            let ghost prevv = all.deep_view();
            let piece = cur_segs[i].clone();
            all.push(piece);
            proof {
                assert(piece@ == curv[i as int]);
                assert(curv.drop_last()[i as int] == curv[i as int]);
                assert(all.deep_view() =~= prevv.push(curv[i as int]));
                assert(curv.drop_last().take(i as int + 1) =~= prevv.push(curv[i as int]));
            }
            i += 1;
        }
        let imp_segs = split_str(import_path, '/');
        let ghost impv = imp_segs.deep_view();
        let im = imp_segs.len();
        let mut j: usize = 0;
        proof {
            assert(curv.drop_last().take(cn - 1) =~= curv.drop_last());
            assert(all.deep_view() + impv.take(0) =~= curv.drop_last());
        }
        while j < im
            invariant
                j <= im,
                im == imp_segs.len(),
                impv == imp_segs.deep_view(),
                all.deep_view() == curv.drop_last() + impv.take(j as int),
            decreases im - j,
        {
            let ghost prevv = all.deep_view();
            let piece = imp_segs[j].clone();
            all.push(piece);
            proof {
                assert(piece@ == impv[j as int]);
                assert(all.deep_view() =~= prevv.push(impv[j as int]));
                assert(curv.drop_last() + impv.take(j as int + 1) =~= prevv.push(impv[j as int]));
            }
            j += 1;
        }
        proof {
            assert(impv.take(im as int) =~= impv);
        }
        let normed = normalize_segments(&all);
        proof {
            reveal_strlit("/");
        }
        let base = join_str(&normed, "/");
        match resolve_base(base.as_str(), tree) {
            Some(p) => Ok(p),
            None => Err(
                SSRError::UnresolvedImport(
                    String::from_str(import_path),
                    String::from_str(current_file),
                ),
            ),
        }
    } else {
        Ok(String::from_str(import_path))
    }
}

/// Classifies one import and carries out what the classification needs: a
/// recursing specifier is resolved (failing with the offending specifier and
/// importer when no candidate exists), a stubbed one is given its shim, and
/// the rest are answered as such.
pub fn classify(specifier: &str, current_file: &str, tree: &AppTree) -> (r: Result<
    ImportDisposition,
    SSRError,
>)
    ensures
        match spec_import_kind(specifier@) {
            ImportKind::Elide => r matches Ok(d) && d matches ImportDisposition::Elide,
            ImportKind::PassThrough => r matches Ok(d) && d
                matches ImportDisposition::PassThrough,
            ImportKind::Stub => r matches Ok(d) && d matches ImportDisposition::Stub(t) && t@
                == stub_text(specifier@),
            ImportKind::Recurse => match spec_resolve_recurse(
                specifier@,
                current_file@,
                tree.paths(),
            ) {
                Some(p) => r matches Ok(d) && d matches ImportDisposition::Recurse(c) && c@ == p,
                None => {
                    &&& r matches Err(e)
                    &&& e matches SSRError::UnresolvedImport(s, m)
                    &&& s@ == specifier@
                    &&& m@ == current_file@
                },
            },
        },
{
    let kind = classify_specifier(specifier);
    match kind {
        ImportKind::Elide => Ok(ImportDisposition::Elide),
        ImportKind::PassThrough => Ok(ImportDisposition::PassThrough),
        ImportKind::Stub => Ok(ImportDisposition::Stub(stub_source(specifier))),
        ImportKind::Recurse => {
            if starts_with_str(specifier, "@/") {
                proof {
                    reveal_strlit("/");
                    reveal_strlit("@/");
                }
                let n = specifier.unicode_len();
                let rest = specifier.substring_char(2, n);
                let segs = split_str(rest, '/');
                let normed = normalize_segments(&segs);
                let base = join_str(&normed, "/");
                proof {
                    assert(rest@ =~= specifier@.skip(2));
                }
                match resolve_base(base.as_str(), tree) {
                    Some(p) => Ok(ImportDisposition::Recurse(p)),
                    None => Err(
                        SSRError::UnresolvedImport(
                            String::from_str(specifier),
                            String::from_str(current_file),
                        ),
                    ),
                }
            } else {
                match resolve_import(specifier, current_file, tree) {
                    Ok(p) => Ok(ImportDisposition::Recurse(p)),
                    Err(e) => Err(e),
                }
            }
        },
    }
}

/// What one line of a module's text becomes in the server bundle: an import
/// of an elided specifier vanishes, an import of a stubbed specifier becomes
/// its shim, and every other line stands unchanged.
pub open spec fn server_line(l: Seq<char>) -> Option<Seq<char>> {
    match spec_parse_import(l) {
        ImportShape::NotImport => Some(l),
        ImportShape::SideEffect { module } => server_import_line(l, module),
        ImportShape::DefaultImport { binding, module } => server_import_line(l, module),
        ImportShape::NamedImport { names, module } => server_import_line(l, module),
    }
}

/// The server-bundle fate of an import line with the given specifier.
pub open spec fn server_import_line(l: Seq<char>, module: Seq<char>) -> Option<Seq<char>> {
    match spec_import_kind(module) {
        ImportKind::Elide => None,
        ImportKind::Stub => Some(stub_text(module)),
        ImportKind::PassThrough => Some(l),
        ImportKind::Recurse => Some(l),
    }
}

/// The kept lines of a module's text, in order.
pub open spec fn server_lines(ls: Seq<Seq<char>>) -> Seq<Seq<char>>
    decreases ls.len(),
{
    if ls.len() == 0 {
        Seq::<Seq<char>>::empty()
    } else {
        (match server_line(ls[0]) {
            Some(l) => seq![l],
            None => Seq::<Seq<char>>::empty(),
        }) + server_lines(ls.skip(1))
    }
}

pub proof fn lemma_server_lines_snoc(ls: Seq<Seq<char>>)
    requires
        ls.len() >= 1,
    ensures
        server_lines(ls) == server_lines(ls.drop_last()) + (match server_line(ls.last()) {
            Some(l) => seq![l],
            None => Seq::<Seq<char>>::empty(),
        }),
    decreases ls.len(),
{
    let tail = match server_line(ls.last()) {
        Some(l) => seq![l],
        None => Seq::<Seq<char>>::empty(),
    };
    if ls.len() == 1 {
        assert(server_lines(ls.skip(1)) =~= Seq::<Seq<char>>::empty());
        assert(server_lines(ls.drop_last()) =~= Seq::<Seq<char>>::empty());
        assert(server_lines(ls) =~= server_lines(ls.drop_last()) + tail);
    } else {
        lemma_server_lines_snoc(ls.skip(1));
        assert(ls.skip(1).drop_last() =~= ls.drop_last().skip(1));
        assert(ls.skip(1).last() == ls.last());
        assert(ls.drop_last()[0] == ls[0]);
        assert(server_lines(ls) =~= server_lines(ls.drop_last()) + tail);
    }
}

/// A module's text made server-safe, line by line.
pub open spec fn spec_rewrite_server(code: Seq<char>) -> Seq<char> {
    join_chars(server_lines(split_chars(code, '\n')), '\n')
}

/// Rewrites a module's text for the server bundle: import lines of elided
/// specifiers are dropped, import lines of stubbed specifiers are replaced
/// by their shims inline, and all other lines stand as they are.
pub fn rewrite_server_imports(code: &str) -> (r: String)
    ensures
        r@ == spec_rewrite_server(code@),
{
    let lines = split_str(code, '\n');
    let ghost lv = lines.deep_view();
    let mut kept: Vec<String> = Vec::new();
    proof {
        assert(kept.deep_view() =~= server_lines(lv.take(0)));
        assert(lv.take(0) =~= Seq::<Seq<char>>::empty());
    }
    let n = lines.len();
    let mut i: usize = 0;
    while i < n
        invariant
            i <= n,
            n == lines.len(),
            lv == lines.deep_view(),
            kept.deep_view() == server_lines(lv.take(i as int)),
        decreases n - i,
    {
        let ghost prev = kept.deep_view();
        proof {
            assert(lv[i as int] == lines@[i as int]@);
        }
        let line = &lines[i];
        let parsed = parse_import_line(line.as_str());
        match parsed {
            ParsedImport::NotImport => {
                let l = line.clone();
                kept.push(l);
                proof {
                    assert(kept.deep_view() =~= prev + seq![lv[i as int]]);
                }
            },
            ParsedImport::SideEffect { module } => {
                let kind = classify_specifier(module.as_str());
                match kind {
                    ImportKind::Elide => {
                    },
                    ImportKind::Stub => {
                        kept.push(stub_source(module.as_str()));
                        proof {
                            assert(kept.deep_view() =~= prev + seq![stub_text(module@)]);
                        }
                    },
                    _ => {
                        let l = line.clone();
                        kept.push(l);
                        proof {
                            assert(kept.deep_view() =~= prev + seq![lv[i as int]]);
                        }
                    },
                }
            },
            ParsedImport::DefaultImport { binding, module } => {
                let kind = classify_specifier(module.as_str());
                match kind {
                    ImportKind::Elide => {
                    },
                    ImportKind::Stub => {
                        kept.push(stub_source(module.as_str()));
                        proof {
                            assert(kept.deep_view() =~= prev + seq![stub_text(module@)]);
                        }
                    },
                    _ => {
                        let l = line.clone();
                        kept.push(l);
                        proof {
                            assert(kept.deep_view() =~= prev + seq![lv[i as int]]);
                        }
                    },
                }
            },
            ParsedImport::NamedImport { names, module } => {
                let kind = classify_specifier(module.as_str());
                match kind {
                    ImportKind::Elide => {
                    },
                    ImportKind::Stub => {
                        kept.push(stub_source(module.as_str()));
                        proof {
                            assert(kept.deep_view() =~= prev + seq![stub_text(module@)]);
                        }
                    },
                    _ => {
                        let l = line.clone();
                        kept.push(l);
                        proof {
                            assert(kept.deep_view() =~= prev + seq![lv[i as int]]);
                        }
                    },
                }
            },
        }
        proof {
            lemma_server_lines_snoc(lv.take(i as int + 1));
            assert(lv.take(i as int + 1).drop_last() =~= lv.take(i as int));
            assert(lv.take(i as int + 1).last() == lv[i as int]);
        }
        i += 1;
    }
    proof {
        assert(lv.take(n as int) =~= lv);
        reveal_strlit("\n");
    }
    let out = join_str(&kept, "\n");
    proof {
        assert(out@ == spec_rewrite_server(code@));
    }
    out
}

} // verus!
