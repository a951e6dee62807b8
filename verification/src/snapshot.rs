//! What the caller found on disk, handed in as plain data: which probed
//! paths are files, which are directories, which exist at all, and what
//! some directories list. Decisions that depend on the filesystem are
//! verified functions of such a snapshot; a path the snapshot does not
//! mention counts as absent.
use vstd::prelude::*;

use crate::text::{str_eq, strings_view};

verus! {

/// Entries of the first listing of `dir`, or none when `dir` was not
/// listed (or could not be).
pub open spec fn listing_of(ls: Seq<(String, Vec<String>)>, dir: Seq<char>) -> Seq<Seq<char>>
    decreases ls.len(),
{
    if ls.len() == 0 {
        Seq::empty()
    } else if ls[0].0@ == dir {
        strings_view(ls[0].1@)
    } else {
        listing_of(ls.drop_first(), dir)
    }
}

pub struct FsSnapshot {
    /// Probed paths that are regular files (links followed).
    pub files: Vec<String>,
    /// Probed paths that are directories (links followed).
    pub dirs: Vec<String>,
    /// Probed paths that exist, of whatever kind.
    pub present: Vec<String>,
    /// Directories and the names of their entries, in the order they
    /// were read.
    pub listings: Vec<(String, Vec<String>)>,
}

fn listed(v: &Vec<String>, p: &str) -> (r: bool)
    ensures
        r == strings_view(v@).contains(p@),
{
    let mut i: usize = 0;
    while i < v.len()
        invariant
            i <= v@.len(),
            forall|j: int| 0 <= j < i ==> v@[j]@ != p@,
        decreases v.len() - i,
    {
        if str_eq(v[i].as_str(), p) {
            assert(strings_view(v@)[i as int] == p@);
            return true;
        }
        i += 1;
    }
    assert forall|j: int| 0 <= j < strings_view(v@).len() implies strings_view(v@)[j] != p@ by {
        assert(strings_view(v@)[j] == v@[j]@);
    }
    false
}

impl FsSnapshot {
    pub open spec fn file(&self, p: Seq<char>) -> bool {
        strings_view(self.files@).contains(p)
    }

    pub open spec fn dir(&self, p: Seq<char>) -> bool {
        strings_view(self.dirs@).contains(p)
    }

    pub open spec fn present_at(&self, p: Seq<char>) -> bool {
        strings_view(self.present@).contains(p)
    }

    /// Each file is recorded once, as a walk of a real tree records it.
    pub open spec fn files_recorded_once(&self) -> bool {
        strings_view(self.files@).no_duplicates()
    }

    pub open spec fn entries(&self, d: Seq<char>) -> Seq<Seq<char>> {
        listing_of(self.listings@, d)
    }

    /// A snapshot in which nothing exists.
    pub fn new() -> (s: FsSnapshot)
        ensures
            s.files@.len() == 0,
            s.dirs@.len() == 0,
            s.present@.len() == 0,
            s.listings@.len() == 0,
    {
        FsSnapshot { files: Vec::new(), dirs: Vec::new(), present: Vec::new(), listings: Vec::new() }
    }

    /// Whether `p` is a regular file.
    pub fn is_file(&self, p: &str) -> (r: bool)
        ensures
            r == self.file(p@),
    {
        listed(&self.files, p)
    }

    /// Whether `p` is a directory.
    pub fn is_dir(&self, p: &str) -> (r: bool)
        ensures
            r == self.dir(p@),
    {
        listed(&self.dirs, p)
    }

    /// Whether `p` exists.
    pub fn exists_path(&self, p: &str) -> (r: bool)
        ensures
            r == self.present_at(p@),
    {
        listed(&self.present, p)
    }

    /// The entry names of directory `d`, in the order they were read.
    pub fn entries_of(&self, d: &str) -> (r: Vec<String>)
        ensures
            strings_view(r@) == self.entries(d@),
    {
        let mut i: usize = 0;
        assert(self.listings@.skip(0) == self.listings@);
        while i < self.listings.len()
            invariant
                i <= self.listings@.len(),
                listing_of(self.listings@, d@) == listing_of(self.listings@.skip(i as int), d@),
            decreases self.listings.len() - i,
        {
            assert(self.listings@.skip(i as int)[0] == self.listings@[i as int]);
            if str_eq(self.listings[i].0.as_str(), d) {
                return self.listings[i].1.clone();
            }
            assert(self.listings@.skip(i as int).drop_first() == self.listings@.skip(i + 1));
            i += 1;
        }
        Vec::new()
    }
}

} // verus!
