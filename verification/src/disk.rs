//! What is known of the file system.
//!
//! The library never reads a disk. It says which paths it needs to know of, and
//! works on the answers, a [`DiskSnapshot`].
use vstd::hash_set::StringHashSet;
use vstd::prelude::*;

verus! {

/// The paths that are known to exist, which of them are regular files, and the
/// links that lead nowhere. There is nothing at a path that was not recorded.
///
/// A link to something that exists counts as what it leads to. A link whose
/// target is missing is no file and no folder, but its place is taken: a write
/// to it would end up where the link leads.
pub struct DiskSnapshot {
    present: StringHashSet,
    regular: StringHashSet,
    dangling: StringHashSet,
}

/// What a [`DiskSnapshot`] holds.
pub struct DiskView {
    /// The paths that exist.
    pub present: Set<Seq<char>>,
    /// The paths of regular files.
    pub regular: Set<Seq<char>>,
    /// The paths of links whose target is missing.
    pub dangling: Set<Seq<char>>,
}

impl DiskView {
    /// Whether something is at the path, if only a link that leads nowhere.
    pub open spec fn is_taken(self, path: Seq<char>) -> bool {
        self.present.contains(path) || self.dangling.contains(path)
    }
}

impl View for DiskSnapshot {
    type V = DiskView;

    closed spec fn view(&self) -> DiskView {
        DiskView {
            present: self.present@,
            regular: self.regular@,
            dangling: self.dangling@,
        }
    }
}

impl DiskSnapshot {
    /// A disk with nothing on it.
    pub fn new() -> (disk: DiskSnapshot)
        ensures
            disk@.present == Set::<Seq<char>>::empty(),
            disk@.regular == Set::<Seq<char>>::empty(),
            disk@.dangling == Set::<Seq<char>>::empty(),
    {
        DiskSnapshot {
            present: StringHashSet::new(),
            regular: StringHashSet::new(),
            dangling: StringHashSet::new(),
        }
    }

    /// Records that `path` exists.
    pub fn record(&mut self, path: &str, is_file: bool)
        ensures
            final(self)@.present == old(self)@.present.insert(path@),
            final(self)@.regular == (if is_file {
                old(self)@.regular.insert(path@)
            } else {
                old(self)@.regular
            }),
            final(self)@.dangling == old(self)@.dangling,
    {
        self.present.insert(path.to_owned());
        if is_file {
            self.regular.insert(path.to_owned());
        }
    }

    /// Records that at `path` there is a link whose target is missing.
    pub fn record_dangling(&mut self, path: &str)
        ensures
            final(self)@.present == old(self)@.present,
            final(self)@.regular == old(self)@.regular,
            final(self)@.dangling == old(self)@.dangling.insert(path@),
    {
        self.dangling.insert(path.to_owned());
    }

    /// Whether the path exists.
    pub fn has(&self, path: &str) -> (r: bool)
        ensures
            r == self@.present.contains(path@),
    {
        self.present.contains(path)
    }

    /// Whether the path is a regular file.
    pub fn is_file(&self, path: &str) -> (r: bool)
        ensures
            r == self@.regular.contains(path@),
    {
        self.regular.contains(path)
    }

    /// Whether there is a link at the path whose target is missing.
    pub fn is_dangling(&self, path: &str) -> (r: bool)
        ensures
            r == self@.dangling.contains(path@),
    {
        self.dangling.contains(path)
    }
}

} // verus!
