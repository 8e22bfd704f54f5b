//! The dependency graph builder: a worklist of canonical module paths and the
//! modules already taken in. The caller repeatedly asks for the next pending
//! path, obtains that module's transformed text and import list from the
//! source transformer, and hands both back; every import classified as
//! recursing is resolved and scheduled at most once, so each canonical path
//! appears exactly once in the finished bundle and an import cycle never
//! schedules anything twice.

use vstd::prelude::*;

use crate::classify::classify;
use crate::classify::rewrite_server_imports;
use crate::classify::spec_import_kind;
use crate::classify::spec_resolve_recurse;
use crate::classify::spec_rewrite_server;
use crate::classify::first_present;
use crate::classify::ImportDisposition;
use crate::classify::ImportKind;
use crate::error::SSRError;
use crate::strutil::str_eq;
use crate::tree::AppTree;

verus! {

/// The keys of a module list, in order.
pub open spec fn keys_of(mods: Seq<(Seq<char>, Seq<char>)>) -> Seq<Seq<char>> {
    mods.map_values(|m: (Seq<char>, Seq<char>)| m.0)
}

/// A finished bundle: each module's transformed text under its canonical
/// path (or a synthetic name for generated entries), and the designated
/// entry point, always one of the keys.
pub struct Bundle {
    pub modules: Vec<(String, String)>,
    pub entry_point: String,
}

impl Bundle {
    /// The module keys, in emission order.
    pub open spec fn module_keys(&self) -> Seq<Seq<char>> {
        keys_of(self.modules.deep_view())
    }

    /// Each canonical path at most once, and the entry point present.
    pub open spec fn wf(&self) -> bool {
        &&& self.module_keys().no_duplicates()
        &&& self.module_keys().contains(self.entry_point@)
    }

    /// Whether a module with the given key is present.
    pub fn has_module(&self, key: &str) -> (r: bool)
        ensures
            r == self.module_keys().contains(key@),
    {
        let n = self.modules.len();
        let mut i: usize = 0;
        while i < n
            invariant
                i <= n,
                n == self.modules.len(),
                forall|k: int| 0 <= k < i ==> self.module_keys()[k] != key@,
            decreases n - i,
        {
            if str_eq(self.modules[i].0.as_str(), key) {
                proof {
                    assert(self.module_keys()[i as int] == key@);
                }
                return true;
            }
            i += 1;
        }
        proof {
            assert(!self.module_keys().contains(key@)) by {
                if self.module_keys().contains(key@) {
                    let j = choose|j: int|
                        0 <= j < self.module_keys().len() && self.module_keys()[j] == key@;
                    assert(self.module_keys()[j] != key@);
                }
            }
        }
        false
    }
}

/// Membership in a concatenation is membership in one of the parts.
pub proof fn lemma_concat_contains(a: Seq<Seq<char>>, b: Seq<Seq<char>>, x: Seq<char>)
    ensures
        (a + b).contains(x) <==> a.contains(x) || b.contains(x),
{
    if a.contains(x) {
        let i = choose|i: int| 0 <= i < a.len() && a[i] == x;
        assert((a + b)[i] == x);
    }
    if b.contains(x) {
        let i = choose|i: int| 0 <= i < b.len() && b[i] == x;
        assert((a + b)[a.len() + i] == x);
    }
    if (a + b).contains(x) {
        let i = choose|i: int| 0 <= i < (a + b).len() && (a + b)[i] == x;
        if i < a.len() {
            assert(a[i] == x);
        } else {
            assert(b[i - a.len()] == x);
        }
    }
}

/// Moving the last pending element over to the keys keeps the scheduled
/// paths pairwise distinct.
pub proof fn lemma_no_dup_rotate(a: Seq<Seq<char>>, b: Seq<Seq<char>>, c: Seq<char>)
    requires
        (a + b.push(c)).no_duplicates(),
    ensures
        (a.push(c) + b).no_duplicates(),
{
    let s = a + b.push(c);
    let t = a.push(c) + b;
    assert(s.len() == t.len());
    assert forall|k: int| 0 <= k < t.len() implies t[k] == s[rotate_idx(k, a.len() as int, s.len()
        as int)] by {
        let f = rotate_idx(k, a.len() as int, s.len() as int);
        if k < a.len() {
            assert(t[k] == a[k]);
            assert(s[f] == a[k]);
        } else if k == a.len() {
            assert(t[k] == c);
            assert(s[f] == b.push(c)[s.len() - 1 - a.len()]);
        } else {
            assert(t[k] == b[k - a.len() - 1]);
            assert(s[f] == b.push(c)[k - 1 - a.len()]);
        }
    }
    assert forall|i: int, j: int|
        0 <= i < t.len() && 0 <= j < t.len() && i != j implies t[i] != t[j] by {
        let fi = rotate_idx(i, a.len() as int, s.len() as int);
        let fj = rotate_idx(j, a.len() as int, s.len() as int);
        assert(fi != fj);
        assert(s[fi] != s[fj]);
    }
}

/// The index in `a + b.push(c)` holding the element that `a.push(c) + b`
/// holds at `k`.
pub open spec fn rotate_idx(k: int, alen: int, total: int) -> int {
    if k < alen {
        k
    } else if k == alen {
        total - 1
    } else {
        k - 1
    }
}

/// The worklist fold that schedules resolved targets: each target joins the
/// pending list unless it is already a key or already pending.
pub open spec fn push_targets(
    keys: Seq<Seq<char>>,
    pending: Seq<Seq<char>>,
    targets: Seq<Seq<char>>,
) -> Seq<Seq<char>>
    decreases targets.len(),
{
    if targets.len() == 0 {
        pending
    } else {
        let p2 = if keys.contains(targets[0]) || pending.contains(targets[0]) {
            pending
        } else {
            pending.push(targets[0])
        };
        push_targets(keys, p2, targets.skip(1))
    }
}

pub proof fn lemma_push_targets_snoc(
    keys: Seq<Seq<char>>,
    pending: Seq<Seq<char>>,
    targets: Seq<Seq<char>>,
    t: Seq<char>,
)
    ensures
        push_targets(keys, pending, targets.push(t)) == ({
            let q = push_targets(keys, pending, targets);
            if keys.contains(t) || q.contains(t) {
                q
            } else {
                q.push(t)
            }
        }),
    decreases targets.len(),
{
    if targets.len() == 0 {
        assert(targets.push(t)[0] == t);
        assert(targets.push(t).skip(1) =~= Seq::<Seq<char>>::empty());
        assert(push_targets(keys, pending, targets) == pending);
        let p2 = if keys.contains(t) || pending.contains(t) {
            pending
        } else {
            pending.push(t)
        };
        assert(push_targets(keys, p2, targets.push(t).skip(1)) == p2);
        assert(push_targets(keys, pending, targets.push(t)) == p2);
    } else {
        assert(targets.push(t)[0] == targets[0]);
        assert(targets.push(t).skip(1) =~= targets.skip(1).push(t));
        let p2 = if keys.contains(targets[0]) || pending.contains(targets[0]) {
            pending
        } else {
            pending.push(targets[0])
        };
        lemma_push_targets_snoc(keys, p2, targets.skip(1), t);
        assert(push_targets(keys, pending, targets.push(t)) == push_targets(
            keys,
            p2,
            targets.skip(1).push(t),
        ));
        assert(push_targets(keys, pending, targets) == push_targets(keys, p2, targets.skip(1)));
    }
}

/// Scheduling targets keeps the scheduled paths pairwise distinct, keeps
/// everything already pending, and adds only targets.
pub proof fn lemma_push_targets_props(
    keys: Seq<Seq<char>>,
    pending: Seq<Seq<char>>,
    targets: Seq<Seq<char>>,
)
    requires
        (keys + pending).no_duplicates(),
    ensures
        (keys + push_targets(keys, pending, targets)).no_duplicates(),
        forall|x: Seq<char>|
            #[trigger] push_targets(keys, pending, targets).contains(x) ==> pending.contains(x)
                || targets.contains(x),
        forall|x: Seq<char>|
            pending.contains(x) ==> #[trigger] push_targets(keys, pending, targets).contains(x),
    decreases targets.len(),
{
    if targets.len() > 0 {
        let t0 = targets[0];
        let p2 = if keys.contains(t0) || pending.contains(t0) {
            pending
        } else {
            pending.push(t0)
        };
        assert((keys + p2).no_duplicates()) by {
            if !(keys.contains(t0) || pending.contains(t0)) {
                lemma_concat_contains(keys, pending, t0);
                assert(!(keys + pending).contains(t0));
                let s = keys + pending;
                let u = keys + pending.push(t0);
                assert forall|i: int, j: int|
                    0 <= i < u.len() && 0 <= j < u.len() && i != j implies u[i] != u[j] by {
                    if i < s.len() && j < s.len() {
                        assert(u[i] == s[i] && u[j] == s[j]);
                    } else if i == s.len() {
                        assert(u[i] == t0 && u[j] == s[j]);
                        assert(!s.contains(t0));
                        if u[j] == t0 {
                            assert(s.contains(t0));
                        }
                    } else if j == s.len() {
                        assert(u[j] == t0 && u[i] == s[i]);
                        assert(!s.contains(t0));
                        if u[i] == t0 {
                            assert(s.contains(t0));
                        }
                    }
                }
            }
        }
        lemma_push_targets_props(keys, p2, targets.skip(1));
        assert forall|x: Seq<char>|
            #[trigger] push_targets(keys, pending, targets).contains(x) implies pending.contains(x)
            || targets.contains(x) by {
            if p2.contains(x) && !pending.contains(x) {
                let i = choose|i: int| 0 <= i < p2.len() && p2[i] == x;
                assert(x == t0);
                assert(targets.contains(t0));
            }
            if targets.skip(1).contains(x) {
                let i = choose|i: int| 0 <= i < targets.skip(1).len() && targets.skip(1)[i] == x;
                assert(targets[i + 1] == x);
            }
        }
        assert forall|x: Seq<char>|
            pending.contains(x) implies #[trigger] push_targets(keys, pending, targets).contains(
            x,
        ) by {
            if pending.contains(x) {
                let i = choose|i: int| 0 <= i < pending.len() && pending[i] == x;
                assert(p2[i] == x);
            }
        }
    }
}

/// A resolved candidate is a file of the listing.
pub proof fn lemma_first_present_in(cands: Seq<Seq<char>>, files: Seq<Seq<char>>)
    ensures
        first_present(cands, files) matches Some(p) ==> files.contains(p),
    decreases cands.len(),
{
    if cands.len() > 0 && !files.contains(cands[0]) {
        lemma_first_present_in(cands.skip(1), files);
    }
}

/// The paths that the recursing imports of one module schedule, in import
/// order, or the first specifier that resolves nowhere.
pub open spec fn spec_targets(
    imports: Seq<Seq<char>>,
    cur: Seq<char>,
    files: Seq<Seq<char>>,
) -> Result<Seq<Seq<char>>, Seq<char>>
    decreases imports.len(),
{
    if imports.len() == 0 {
        Ok(Seq::<Seq<char>>::empty())
    } else if spec_import_kind(imports[0]) == ImportKind::Recurse {
        match spec_resolve_recurse(imports[0], cur, files) {
            Some(p) => match spec_targets(imports.skip(1), cur, files) {
                Ok(rest) => Ok(seq![p] + rest),
                Err(e) => Err(e),
            },
            None => Err(imports[0]),
        }
    } else {
        spec_targets(imports.skip(1), cur, files)
    }
}

/// Every target is a file of the listing.
pub proof fn lemma_targets_in_tree(imports: Seq<Seq<char>>, cur: Seq<char>, files: Seq<Seq<char>>)
    ensures
        spec_targets(imports, cur, files) matches Ok(ts) ==> forall|x: Seq<char>|
            ts.contains(x) ==> files.contains(x),
    decreases imports.len(),
{
    if imports.len() > 0 {
        lemma_targets_in_tree(imports.skip(1), cur, files);
        if spec_import_kind(imports[0]) == ImportKind::Recurse {
            match spec_resolve_recurse(imports[0], cur, files) {
                Some(p) => {
                    assert(files.contains(p)) by {
                        if crate::classify::is_root_alias_spec(imports[0]) {
                            lemma_first_present_in(
                                crate::classify::import_candidates(
                                    crate::strutil::join_chars(
                                        crate::classify::norm_from(
                                            Seq::<Seq<char>>::empty(),
                                            crate::strutil::split_chars(imports[0].skip(2), '/'),
                                        ),
                                        '/',
                                    ),
                                ),
                                files,
                            );
                        } else {
                            lemma_first_present_in(
                                crate::classify::import_candidates(
                                    crate::strutil::join_chars(
                                        crate::classify::norm_from(
                                            Seq::<Seq<char>>::empty(),
                                            crate::classify::parent_segs(cur)
                                                + crate::strutil::split_chars(imports[0], '/'),
                                        ),
                                        '/',
                                    ),
                                ),
                                files,
                            );
                        }
                    }
                    match spec_targets(imports.skip(1), cur, files) {
                        Ok(rest) => {
                            assert forall|x: Seq<char>|
                                (seq![p] + rest).contains(x) implies files.contains(x) by {
                                lemma_concat_contains(seq![p], rest, x);
                                if seq![p].contains(x) {
                                    assert(x == p);
                                }
                            }
                        },
                        Err(e) => {
                        },
                    }
                },
                None => {
                },
            }
        }
    }
}

/// The last position at or before `i` holding `c`, or `-1` when none does.
pub open spec fn rfind_char_from(s: Seq<char>, i: int, c: char) -> int
    decreases i + 1 when i < s.len()
{
    if i < 0 {
        -1
    } else if s[i] == c {
        i
    } else {
        rfind_char_from(s, i - 1, c)
    }
}

/// The stem of the file a path names: its last segment, cut before the final
/// `.` unless that dot leads the name.
pub open spec fn file_stem_of(path: Seq<char>) -> Seq<char> {
    let name = crate::strutil::split_chars(path, '/').last();
    let d = rfind_char_from(name, name.len() - 1, '.');
    if d > 0 {
        name.take(d)
    } else {
        name
    }
}

/// The component name an entry module is mounted under: its file stem, or
/// `App` when the path yields none.
pub open spec fn entry_stem(path: Seq<char>) -> Seq<char> {
    let s = file_stem_of(path);
    if s.len() == 0 {
        "App"@
    } else {
        s
    }
}

/// The synthetic bootstrap module of a hydration bundle: it imports the
/// entry, looks up the root element, and mounts the entry component there.
pub open spec fn hydration_wrapper_text(entry: Seq<char>) -> Seq<char> {
    "\nimport React from \"react\";\nimport { hydrateRoot } from \"react-dom/client\";\nimport "@
        + entry_stem(entry) + " from \""@ + entry
        + "\";\n\nconst rootElement = document.getElementById(\"root\");\nif (rootElement) {\n    hydrateRoot(rootElement, React.createElement("@
        + entry_stem(entry) + "));\n}\n"@
}

/// The worklist-driven dependency graph builder. `modules` holds the taken-in
/// modules in completion order, `pending` the scheduled canonical paths not
/// yet taken in, and `entry` the designated entry module. The caller drives
/// it: `next_pending`, read and transform that module outside, `add_module`.
pub struct Bundler {
    pub modules: Vec<(String, String)>,
    pub pending: Vec<String>,
    pub entry: String,
}

/// What one `add_module` step does to the state: the last pending path
/// becomes a module keyed by it, holding the server-rewritten text, and the
/// given targets are scheduled, each at most once.
pub open spec fn add_module_post(
    s_old: Bundler,
    s_new: Bundler,
    code: Seq<char>,
    targets: Seq<Seq<char>>,
) -> bool {
    let cur = s_old.pending.deep_view().last();
    &&& s_new.modules.deep_view() == s_old.modules.deep_view().push(
        (cur, spec_rewrite_server(code)),
    )
    &&& s_new.pending.deep_view() == push_targets(
        keys_of(s_new.modules.deep_view()),
        s_old.pending.deep_view().drop_last(),
        targets,
    )
    &&& s_new.entry@ == s_old.entry@
}

impl Bundler {
    /// The keys of the taken-in modules, in completion order.
    pub open spec fn module_keys(&self) -> Seq<Seq<char>> {
        keys_of(self.modules.deep_view())
    }

    /// Every canonical path this builder has ever scheduled: taken-in keys,
    /// then the still-pending paths.
    pub open spec fn scheduled(&self) -> Seq<Seq<char>> {
        self.module_keys() + self.pending.deep_view()
    }

    /// The builder's invariant: no canonical path is scheduled twice, and the
    /// entry is among the scheduled paths.
    pub open spec fn wf(&self) -> bool {
        &&& self.scheduled().no_duplicates()
        &&& self.scheduled().contains(self.entry@)
    }

    /// Every scheduled path is the entry or a file of the listing.
    pub open spec fn inside(&self, files: Seq<Seq<char>>) -> bool {
        forall|x: Seq<char>|
            #[trigger] self.scheduled().contains(x) ==> x == self.entry@ || files.contains(x)
    }

    /// A fresh builder for one entry module: nothing taken in, the entry
    /// pending.
    pub fn new(entry: &str) -> (r: Bundler)
        ensures
            r.modules.deep_view() == Seq::<(Seq<char>, Seq<char>)>::empty(),
            r.pending.deep_view() == seq![entry@],
            r.entry@ == entry@,
            r.wf(),
    {
        let mut pending: Vec<String> = Vec::new();
        pending.push(String::from_str(entry));
        let r = Bundler { modules: Vec::new(), pending, entry: String::from_str(entry) };
        proof {
            assert(r.modules.deep_view() =~= Seq::<(Seq<char>, Seq<char>)>::empty());
            assert(r.pending.deep_view() =~= seq![entry@]);
            assert(r.module_keys() =~= Seq::<Seq<char>>::empty());
            assert(r.scheduled() =~= seq![entry@]);
            assert(r.scheduled()[0] == entry@);
        }
        r
    }

    /// The canonical path the next `add_module` call will take in, if any
    /// work remains.
    pub fn next_pending(&self) -> (r: Option<String>)
        ensures
            match r {
                Some(p) => self.pending.len() > 0 && p@ == self.pending.deep_view().last(),
                None => self.pending.len() == 0,
            },
    {
        let n = self.pending.len();
        if n == 0 {
            None
        } else {
            let p = self.pending[n - 1].clone();
            proof {
                assert(self.pending.deep_view().last() == self.pending@[n - 1]@);
            }
            Some(p)
        }
    }

    /// Whether a path was ever scheduled: taken in already or still pending.
    pub fn is_scheduled(&self, path: &str) -> (r: bool)
        ensures
            r == self.scheduled().contains(path@),
    {
        proof {
            lemma_concat_contains(self.module_keys(), self.pending.deep_view(), path@);
        }
        let n = self.modules.len();
        let mut i: usize = 0;
        let mut in_keys = false;
        while i < n
            invariant
                i <= n,
                n == self.modules.len(),
                !in_keys,
                forall|k: int| 0 <= k < i ==> self.module_keys()[k] != path@,
            decreases n - i,
        {
            if str_eq(self.modules[i].0.as_str(), path) {
                proof {
                    assert(self.module_keys()[i as int] == path@);
                    lemma_concat_contains(self.module_keys(), self.pending.deep_view(), path@);
                }
                return true;
            }
            i += 1;
        }
        proof {
            assert(!self.module_keys().contains(path@)) by {
                if self.module_keys().contains(path@) {
                    let j = choose|j: int|
                        0 <= j < self.module_keys().len() && self.module_keys()[j] == path@;
                    assert(self.module_keys()[j] != path@);
                }
            }
        }
        let m = self.pending.len();
        let mut j: usize = 0;
        while j < m
            invariant
                j <= m,
                m == self.pending.len(),
                forall|k: int| 0 <= k < j ==> self.pending.deep_view()[k] != path@,
            decreases m - j,
        {
            if str_eq(self.pending[j].as_str(), path) {
                proof {
                    assert(self.pending.deep_view()[j as int] == path@);
                    lemma_concat_contains(self.module_keys(), self.pending.deep_view(), path@);
                }
                return true;
            }
            j += 1;
        }
        proof {
            assert(!self.pending.deep_view().contains(path@)) by {
                if self.pending.deep_view().contains(path@) {
                    let k = choose|k: int|
                        0 <= k < self.pending.deep_view().len() && self.pending.deep_view()[k]
                            == path@;
                    assert(self.pending.deep_view()[k] != path@);
                }
            }
        }
        false
    }

    /// Takes in the module whose path the last `next_pending` answered: its
    /// transformed text, rewritten for the server, is stored under that path,
    /// and each import that classifies as recursing is resolved and scheduled
    /// unless already scheduled. Fails, leaving the builder untouched, on the
    /// first import that resolves nowhere.
    pub fn add_module(&mut self, code: &str, imports: &Vec<String>, tree: &AppTree) -> (r: Result<
        (),
        SSRError,
    >)
        requires
            old(self).wf(),
            old(self).pending.len() > 0,
        ensures
            final(self).wf(),
            match spec_targets(
                imports.deep_view(),
                old(self).pending.deep_view().last(),
                tree.paths(),
            ) {
                Ok(ts) => r is Ok && add_module_post(*old(self), *final(self), code@, ts),
                Err(sp) => {
                    &&& r matches Err(e)
                    &&& e matches SSRError::UnresolvedImport(s, m)
                    &&& s@ == sp
                    &&& m@ == old(self).pending.deep_view().last()
                    &&& *final(self) == *old(self)
                },
            },
            old(self).inside(tree.paths()) ==> final(self).inside(tree.paths()),
            final(self).entry@ == old(self).entry@,
    {
        let np = self.pending.len();
        let cur = self.pending[np - 1].clone();
        let ghost curv = self.pending.deep_view().last();
        proof {
            assert(cur@ == curv);
        }
        let ghost iv = imports.deep_view();
        let mut targets: Vec<String> = Vec::new();
        let n = imports.len();
        let mut i: usize = 0;
        proof {
            assert(iv.skip(0) =~= iv);
            assert(targets.deep_view() =~= Seq::<Seq<char>>::empty());
        }
        while i < n
            invariant
                i <= n,
                n == imports.len(),
                iv == imports.deep_view(),
                curv == cur@,
                *self == *old(self),
                old(self).wf(),
                old(self).pending.len() > 0,
                curv == old(self).pending.deep_view().last(),
                match spec_targets(iv.skip(i as int), curv, tree.paths()) {
                    Ok(rest) => spec_targets(iv, curv, tree.paths()) == Ok::<
                        Seq<Seq<char>>,
                        Seq<char>,
                    >(targets.deep_view() + rest),
                    Err(e) => spec_targets(iv, curv, tree.paths()) == Err::<
                        Seq<Seq<char>>,
                        Seq<char>,
                    >(e),
                },
            decreases n - i,
        {
            proof {
                assert(iv.skip(i as int)[0] == iv[i as int]);
                assert(iv.skip(i as int).skip(1) =~= iv.skip(i as int + 1));
                assert(iv[i as int] == imports@[i as int]@);
            }
            let spec_str = &imports[i];
            let kind = crate::classify::classify_specifier(spec_str.as_str());
            match kind {
                ImportKind::Recurse => {
                    match classify(spec_str.as_str(), cur.as_str(), tree) {
                        Ok(d) => {
                            let ghost prev = targets.deep_view();
                            match d {
                                ImportDisposition::Recurse(p) => {
                                    targets.push(p);
                                    proof {
                                        let resolved = spec_resolve_recurse(
                                            iv[i as int],
                                            curv,
                                            tree.paths(),
                                        );
                                        assert(targets.deep_view() =~= prev + seq![
                                            resolved.unwrap(),
                                        ]);
                                        match spec_targets(
                                            iv.skip(i as int + 1),
                                            curv,
                                            tree.paths(),
                                        ) {
                                            Ok(rest) => {
                                                assert(targets.deep_view() + rest =~= prev + (seq![
                                                    resolved.unwrap(),
                                                ] + rest));
                                            },
                                            Err(e) => {
                                            },
                                        }
                                    }
                                },
                                _ => {
                                    // classify answers a recursing specifier
                                    // with a resolution or an error, never
                                    // with another disposition.
                                    proof {
                                        assert(false);
                                    }
                                },
                            }
                        },
                        Err(e) => {
                            return Err(e);
                        },
                    }
                },
                _ => {
                },
            }
            i += 1;
        }
        proof {
            assert(iv.skip(n as int) =~= Seq::<Seq<char>>::empty());
            assert(spec_targets(iv.skip(n as int), curv, tree.paths()) == Ok::<
                Seq<Seq<char>>,
                Seq<char>,
            >(Seq::<Seq<char>>::empty()));
            assert(targets.deep_view() + Seq::<Seq<char>>::empty() =~= targets.deep_view());
        }
        // every import resolves; now commit the module and schedule the targets
        let ghost old_keys = self.module_keys();
        let ghost old_pending = self.pending.deep_view();
        let rewritten = rewrite_server_imports(code);
        let popped = self.pending.pop();
        self.modules.push((cur, rewritten));
        proof {
            assert(self.pending.deep_view() =~= old_pending.drop_last());
            assert(self.modules.deep_view() =~= old(self).modules.deep_view().push(
                (curv, spec_rewrite_server(code@)),
            ));
            assert(self.module_keys() =~= old_keys.push(curv));
            assert(old_pending =~= old_pending.drop_last().push(curv));
            lemma_no_dup_rotate(old_keys, old_pending.drop_last(), curv);
            assert((self.module_keys() + self.pending.deep_view()).no_duplicates());
        }
        let ghost keys_new = self.module_keys();
        let ghost pending0 = self.pending.deep_view();
        let ghost mods_after = self.modules.deep_view();
        let ghost tv = targets.deep_view();
        let m = targets.len();
        let mut j: usize = 0;
        proof {
            assert(tv.take(0) =~= Seq::<Seq<char>>::empty());
            assert(push_targets(keys_new, pending0, tv.take(0)) == pending0);
        }
        while j < m
            invariant
                j <= m,
                m == targets.len(),
                tv == targets.deep_view(),
                keys_new == self.module_keys(),
                self.modules.deep_view() == mods_after,
                mods_after == old(self).modules.deep_view().push(
                    (curv, spec_rewrite_server(code@)),
                ),
                curv == old(self).pending.deep_view().last(),
                self.entry == old(self).entry,
                self.pending.deep_view() == push_targets(keys_new, pending0, tv.take(j as int)),
                (keys_new + pending0).no_duplicates(),
            decreases m - j,
        {
            proof {
                assert(tv[j as int] == targets@[j as int]@);
                lemma_push_targets_snoc(keys_new, pending0, tv.take(j as int), tv[j as int]);
                assert(tv.take(j as int).push(tv[j as int]) =~= tv.take(j as int + 1));
                lemma_push_targets_props(keys_new, pending0, tv.take(j as int));
            }
            let t = &targets[j];
            if !self.is_scheduled(t.as_str()) {
                let tt = t.clone();
                let ghost prevp = self.pending.deep_view();
                self.pending.push(tt);
                proof {
                    assert(self.pending.deep_view() =~= prevp.push(tv[j as int]));
                    lemma_concat_contains(keys_new, prevp, tv[j as int]);
                }
            } else {
                proof {
                    lemma_concat_contains(keys_new, self.pending.deep_view(), tv[j as int]);
                }
            }
            j += 1;
        }
        proof {
            assert(tv.take(m as int) =~= tv);
            lemma_push_targets_props(keys_new, pending0, tv);
            assert(self.wf()) by {
                assert((keys_new + self.pending.deep_view()).no_duplicates());
                assert(self.scheduled().contains(self.entry@)) by {
                    lemma_concat_contains(old_keys, old_pending, old(self).entry@);
                    lemma_concat_contains(keys_new, self.pending.deep_view(), self.entry@);
                    if old_keys.contains(self.entry@) {
                        let q = choose|q: int|
                            0 <= q < old_keys.len() && old_keys[q] == self.entry@;
                        assert(keys_new[q] == self.entry@);
                    } else {
                        let q = choose|q: int|
                            0 <= q < old_pending.len() && old_pending[q] == self.entry@;
                        if q == old_pending.len() - 1 {
                            assert(keys_new.last() == self.entry@);
                        } else {
                            assert(pending0[q] == self.entry@);
                            assert(self.pending.deep_view().contains(self.entry@));
                        }
                    }
                }
            }
            assert(old(self).inside(tree.paths()) ==> self.inside(tree.paths())) by {
                if old(self).inside(tree.paths()) {
                    lemma_targets_in_tree(iv, curv, tree.paths());
                    assert forall|x: Seq<char>|
                        #[trigger] self.scheduled().contains(x) implies x == self.entry@
                        || tree.paths().contains(x) by {
                        lemma_concat_contains(keys_new, self.pending.deep_view(), x);
                        lemma_concat_contains(old_keys, old_pending, x);
                        if keys_new.contains(x) {
                            let q = choose|q: int|
                                0 <= q < keys_new.len() && keys_new[q] == x;
                            if q < old_keys.len() {
                                assert(old_keys[q] == x);
                                assert(old(self).scheduled().contains(x));
                            } else {
                                assert(x == curv);
                                assert(old_pending.last() == curv);
                                assert(old(self).scheduled().contains(x));
                            }
                        } else {
                            assert(self.pending.deep_view().contains(x));
                            if pending0.contains(x) {
                                let q = choose|q: int|
                                    0 <= q < pending0.len() && pending0[q] == x;
                                assert(old_pending[q] == x);
                                assert(old(self).scheduled().contains(x));
                            } else {
                                assert(tv.contains(x));
                            }
                        }
                    }
                }
            }
        }
        Ok(())
    }
}

/// Scans backwards for the last `.`; faithful to `rfind_char_from`.
fn rfind_dot(name: &str) -> (r: Option<usize>)
    ensures
        match r {
            Some(d) => rfind_char_from(name@, name@.len() - 1, '.') == d as int && d < name@.len(),
            None => rfind_char_from(name@, name@.len() - 1, '.') == -1,
        },
{
    let nn = name.unicode_len();
    let mut j = nn;
    while j > 0
        invariant
            j <= nn,
            nn == name@.len(),
            rfind_char_from(name@, nn as int - 1, '.') == rfind_char_from(name@, j as int - 1, '.'),
        decreases j,
    {
        if name.get_char(j - 1) == '.' {
            return Some(j - 1);
        }
        j -= 1;
    }
    None
}

/// Builds the synthetic hydration bootstrap for an entry module; faithful to
/// `hydration_wrapper_text`.
pub fn generate_hydration_wrapper(entry: &str) -> (r: String)
    ensures
        r@ == hydration_wrapper_text(entry@),
{
    let segs = crate::strutil::split_str(entry, '/');
    let name_s = segs[segs.len() - 1].clone();
    proof {
        assert(name_s@ == crate::strutil::split_chars(entry@, '/').last());
    }
    let name = name_s.as_str();
    let mut stem: String = match rfind_dot(name) {
        Some(k) => {
            if k > 0 {
                let t = String::from_str(name.substring_char(0, k));
                proof {
                    assert(t@ =~= name@.take(k as int));
                }
                t
            } else {
                String::from_str(name)
            }
        },
        None => String::from_str(name),
    };
    proof {
        assert(stem@ == file_stem_of(entry@));
    }
    if stem.as_str().unicode_len() == 0 {
        stem = String::from_str("App");
        proof {
            assert(stem@ == entry_stem(entry@));
        }
    }
    let mut out = String::new();
    out.append(
        "\nimport React from \"react\";\nimport { hydrateRoot } from \"react-dom/client\";\nimport ",
    );
    out.append(stem.as_str());
    out.append(" from \"");
    out.append(entry);
    out.append(
        "\";\n\nconst rootElement = document.getElementById(\"root\");\nif (rootElement) {\n    hydrateRoot(rootElement, React.createElement(",
    );
    out.append(stem.as_str());
    out.append("));\n}\n");
    proof {
        assert(out@ =~= hydration_wrapper_text(entry@));
    }
    out
}

impl Bundler {
    /// Closes the builder as the server-render bundle: every taken-in module
    /// under its canonical path, rooted directly at the entry module.
    pub fn into_ssr_bundle(self) -> (b: Bundle)
        requires
            self.wf(),
            self.pending.len() == 0,
        ensures
            b.modules.deep_view() == self.modules.deep_view(),
            b.entry_point@ == self.entry@,
            b.wf(),
    {
        proof {
            assert(self.pending.deep_view().len() == 0);
            assert(self.scheduled() =~= self.module_keys());
        }
        Bundle { modules: self.modules, entry_point: self.entry }
    }

    /// Closes the builder as the hydration bundle: the taken-in modules plus
    /// the synthetic bootstrap, emitted last and designated as entry point.
    pub fn into_hydration_bundle(self) -> (b: Bundle)
        requires
            self.wf(),
            self.pending.len() == 0,
            !self.module_keys().contains("__hydration_entry__"@),
        ensures
            b.modules.deep_view() == self.modules.deep_view().push(
                ("__hydration_entry__"@, hydration_wrapper_text(self.entry@)),
            ),
            b.entry_point@ == "__hydration_entry__"@,
            b.wf(),
    {
        let ghost old_keys = self.module_keys();
        let wrapper = generate_hydration_wrapper(self.entry.as_str());
        let mut modules = self.modules;
        modules.push((String::from_str("__hydration_entry__"), wrapper));
        let b = Bundle { modules, entry_point: String::from_str("__hydration_entry__") };
        proof {
            assert(b.modules.deep_view() =~= self.modules.deep_view().push(
                ("__hydration_entry__"@, hydration_wrapper_text(self.entry@)),
            ));
            assert(b.module_keys() =~= old_keys.push("__hydration_entry__"@));
            assert(self.pending.deep_view().len() == 0);
            assert(self.scheduled() =~= old_keys);
            assert(b.module_keys().last() == "__hydration_entry__"@);
            assert(b.wf()) by {
                let u = b.module_keys();
                assert forall|i: int, j: int|
                    0 <= i < u.len() && 0 <= j < u.len() && i != j implies u[i] != u[j] by {
                    if i < old_keys.len() && j < old_keys.len() {
                        assert(old_keys[i] == u[i] && old_keys[j] == u[j]);
                    } else if i == old_keys.len() {
                        assert(u[i] == "__hydration_entry__"@);
                        if u[j] == "__hydration_entry__"@ {
                            assert(old_keys.contains("__hydration_entry__"@));
                        }
                    } else {
                        assert(u[j] == "__hydration_entry__"@);
                        if u[i] == "__hydration_entry__"@ {
                            assert(old_keys.contains("__hydration_entry__"@));
                        }
                    }
                }
            }
        }
        b
    }
}

/// Law: deduplication. In a well-formed builder no canonical path keys two
/// modules, however many imports named it: a module imported under different
/// specifiers that resolve to the same file appears exactly once.
pub proof fn lemma_modules_dedup(b: Bundler)
    requires
        b.wf(),
    ensures
        b.module_keys().no_duplicates(),
{
    let s = b.scheduled();
    assert forall|i: int, j: int|
        0 <= i < b.module_keys().len() && 0 <= j < b.module_keys().len() && i != j implies b
        .module_keys()[i] != b.module_keys()[j] by {
        assert(s[i] == b.module_keys()[i]);
        assert(s[j] == b.module_keys()[j]);
    }
}

/// Law: cycle-safe termination. Every scheduled path is pairwise distinct
/// and drawn from the project files and the entry, so the work is bounded by
/// the tree's size: a mutually importing pair of modules is scheduled once
/// each, and the drive loop ends. Each `add_module` call grows `modules` by
/// one while this bound stands still.
pub proof fn lemma_bundler_bounded(b: Bundler, files: Seq<Seq<char>>)
    requires
        b.wf(),
        b.inside(files),
    ensures
        b.modules.len() + b.pending.len() <= files.len() + 1,
{
    broadcast use vstd::set::group_set_axioms;
    broadcast use vstd::seq_lib::seq_to_set_is_finite;

    let s = b.scheduled();
    s.unique_seq_to_set();
    let allowed = files.to_set().insert(b.entry@);
    assert(s.to_set().subset_of(allowed)) by {
        assert forall|x: Seq<char>| s.to_set().contains(x) implies allowed.contains(x) by {
            assert(s.contains(x));
            if files.contains(x) {
                assert(files.to_set().contains(x));
            }
        }
    }
    vstd::set_lib::lemma_len_subset(s.to_set(), allowed);
    files.lemma_cardinality_of_set();
    assert(allowed.len() <= files.to_set().len() + 1);
    assert(s.len() == b.modules.len() + b.pending.len());
}

/// Law: round trip. For an entry module whose imports schedule nothing
/// further, one `add_module` step from a fresh builder leaves no pending
/// work; the SSR bundle then holds exactly one module, keyed by the entry
/// point, and the hydration bundle exactly two — that module and the
/// bootstrap — with the bootstrap as entry point.
pub proof fn lemma_round_trip(b0: Bundler, b1: Bundler, code: Seq<char>, ssr: Bundle, hyd: Bundle)
    requires
        b0.modules.deep_view() == Seq::<(Seq<char>, Seq<char>)>::empty(),
        b0.pending.deep_view() == seq![b0.entry@],
        add_module_post(b0, b1, code, Seq::<Seq<char>>::empty()),
        ssr.modules.deep_view() == b1.modules.deep_view(),
        ssr.entry_point@ == b1.entry@,
        hyd.modules.deep_view() == b1.modules.deep_view().push(
            ("__hydration_entry__"@, hydration_wrapper_text(b1.entry@)),
        ),
        hyd.entry_point@ == "__hydration_entry__"@,
    ensures
        b1.pending.deep_view().len() == 0,
        ssr.modules.deep_view().len() == 1,
        ssr.module_keys() == seq![ssr.entry_point@],
        hyd.modules.deep_view().len() == 2,
        hyd.module_keys() == seq![ssr.entry_point@, "__hydration_entry__"@],
{
    assert(b0.pending.deep_view().last() == b0.entry@);
    assert(b1.modules.deep_view() =~= seq![(b0.entry@, crate::classify::spec_rewrite_server(code))]);
    assert(b1.pending.deep_view() == push_targets(
        keys_of(b1.modules.deep_view()),
        b0.pending.deep_view().drop_last(),
        Seq::<Seq<char>>::empty(),
    ));
    assert(b0.pending.deep_view().drop_last() =~= Seq::<Seq<char>>::empty());
    assert(ssr.module_keys() =~= seq![ssr.entry_point@]);
    assert(hyd.module_keys() =~= seq![ssr.entry_point@, "__hydration_entry__"@]);
}

} // verus!
