//! The app tree as a value: the listing of every file under the app root (or
//! a project root), each as a `/`-separated path relative to that root, in
//! the order a directory walk produced them. Callers that read the disk build
//! one of these and hand it in; everything here then works on plain values.

use vstd::prelude::*;

verus! {

/// A listing of the files that exist under one root directory. Paths are
/// relative to the root, use `/` between segments, and carry no leading or
/// trailing separator. Membership in the listing stands for existence on
/// disk, and the order is the walk's enumeration order.
pub struct AppTree {
    pub files: Vec<String>,
}

impl AppTree {
    /// The listing as a sequence of character sequences.
    pub open spec fn paths(&self) -> Seq<Seq<char>> {
        self.files.deep_view()
    }

    /// Whether a path is present in the listing.
    pub open spec fn has_path(&self, p: Seq<char>) -> bool {
        self.paths().contains(p)
    }

    /// An empty listing.
    pub fn new() -> (r: AppTree)
        ensures
            r.paths() == Seq::<Seq<char>>::empty(),
    {
        let t = AppTree { files: Vec::new() };
        proof {
            assert(t.paths() =~= Seq::<Seq<char>>::empty());
        }
        t
    }

    /// Appends one file path to the listing.
    pub fn add(&mut self, path: &str)
        ensures
            final(self).paths() == old(self).paths().push(path@),
    {
        self.files.push(String::from_str(path));
        proof {
            assert(self.paths() =~= old(self).paths().push(path@));
        }
    }

    /// Decides membership of a path in the listing.
    pub fn contains(&self, path: &str) -> (r: bool)
        ensures
            r == self.has_path(path@),
    {
        let n = self.files.len();
        let mut i: usize = 0;
        while i < n
            invariant
                i <= n,
                n == self.files.len(),
                forall|k: int| 0 <= k < i ==> self.paths()[k] != path@,
            decreases n - i,
        {
            if crate::strutil::str_eq(self.files[i].as_str(), path) {
                proof {
                    assert(self.paths()[i as int] == path@);
                }
                return true;
            }
            i += 1;
        }
        proof {
            assert(!self.has_path(path@)) by {
                if self.has_path(path@) {
                    let j = choose|j: int|
                        0 <= j < self.paths().len() && self.paths()[j] == path@;
                    assert(self.paths()[j] != path@);
                }
            }
        }
        false
    }
}

} // verus!
