//! A picture of the part of the file system that the drivers look at.
//!
//! Nothing in this library touches a disk. Whoever calls it records which
//! paths exist, and whether each is a file or a directory, in a
//! [`FileSystem`], and hands that to the functions that decide.

use vstd::prelude::*;
use crate::path::{child_name, is_name, join_spec, lemma_child_name};
use crate::strmap::StrMap;

verus! {

/// What a path names.
#[derive(Clone, Copy, Debug, PartialEq, Eq, Structural)]
pub enum EntryKind {
    File,
    Directory,
}

/// Which paths exist, and what each of them is.
pub struct FileSystem {
    entries: StrMap<EntryKind>,
}

/// Whether `name` is a directory directly inside `parent`.
pub open spec fn is_subdirectory(
    fs: Map<Seq<char>, EntryKind>,
    parent: Seq<char>,
    name: Seq<char>,
) -> bool {
    &&& is_name(name)
    &&& fs.contains_key(join_spec(parent, name))
    &&& fs[join_spec(parent, name)] == EntryKind::Directory
}

impl View for FileSystem {
    type V = Map<Seq<char>, EntryKind>;

    closed spec fn view(&self) -> Map<Seq<char>, EntryKind> {
        self.entries@
    }
}

impl FileSystem {
    /// A file system in which nothing exists.
    pub fn new() -> (fs: Self)
        ensures
            fs@ == Map::<Seq<char>, EntryKind>::empty(),
    {
        FileSystem { entries: StrMap::new() }
    }

    /// Records that `path` is a file.
    pub fn add_file(&mut self, path: &str)
        ensures
            final(self)@ == old(self)@.insert(path@, EntryKind::File),
    {
        self.entries.insert(path.to_owned(), EntryKind::File);
    }

    /// Records that `path` is a directory.
    pub fn add_dir(&mut self, path: &str)
        ensures
            final(self)@ == old(self)@.insert(path@, EntryKind::Directory),
    {
        self.entries.insert(path.to_owned(), EntryKind::Directory);
    }

    /// Records that nothing exists at `path`.
    pub fn remove(&mut self, path: &str)
        ensures
            final(self)@ == old(self)@.remove(path@),
    {
        self.entries.remove(path);
    }

    /// Whether anything exists at `path`.
    pub fn contains(&self, path: &str) -> (b: bool)
        ensures
            b == self@.contains_key(path@),
    {
        self.entries.contains_key(path)
    }

    /// Whether `path` is a file.
    pub fn is_file(&self, path: &str) -> (b: bool)
        ensures
            b == (self@.contains_key(path@) && self@[path@] == EntryKind::File),
    {
        match self.entries.get(path) {
            Some(kind) => *kind == EntryKind::File,
            None => false,
        }
    }

    /// Whether `path` is a directory.
    pub fn is_dir(&self, path: &str) -> (b: bool)
        ensures
            b == (self@.contains_key(path@) && self@[path@] == EntryKind::Directory),
    {
        match self.entries.get(path) {
            Some(kind) => *kind == EntryKind::Directory,
            None => false,
        }
    }

    /// The names of the directories directly inside `parent`, each once.
    pub fn subdirectories(&self, parent: &str) -> (names: Vec<String>)
        ensures
            forall|i: int, j: int|
                0 <= i < names.len() && 0 <= j < names.len() && i != j ==> names[i]@ != names[j]@,
            forall|i: int|
                0 <= i < names.len() ==> is_subdirectory(self@, parent@, #[trigger] names[i]@),
            forall|name: Seq<char>|
                is_subdirectory(self@, parent@, name) ==> exists|i: int|
                    0 <= i < names.len() && #[trigger] names[i]@ == name,
    {
        let mut names: Vec<String> = Vec::new();
        let n = self.entries.len();
        let ghost keys = self.entries.keys();
        proof {
            self.entries.lemma_keys_are_domain();
        }
        let mut k: usize = 0;
        while k < n
            invariant
                k <= n,
                n == keys.len(),
                keys == self.entries.keys(),
                keys.no_duplicates(),
                forall|p: Seq<char>| self@.contains_key(p) <==> keys.contains(p),
                forall|i: int|
                    0 <= i < names.len() ==> is_subdirectory(self@, parent@, #[trigger] names[i]@),
                forall|i: int|
                    0 <= i < names.len() ==> exists|q: int|
                        0 <= q < k && keys[q] == join_spec(parent@, #[trigger] names[i]@),
                forall|i: int, j: int|
                    0 <= i < names.len() && 0 <= j < names.len() && i != j ==> names[i]@
                        != names[j]@,
                forall|q: int, name: Seq<char>|
                    0 <= q < k && is_name(name) && keys[q] == join_spec(parent@, name) && self@[keys[q]]
                        == EntryKind::Directory ==> exists|i: int|
                        0 <= i < names.len() && #[trigger] names[i]@ == name,
            decreases n - k,
        {
            let key = self.entries.key_at(k);
            let kind = self.entries.value_at(k);
            let ghost before = names@;
            let mut added = false;
            if *kind == EntryKind::Directory {
                match child_name(parent, key) {
                    Some(name) => {
                        proof {
                            lemma_child_name(parent@, key@, name@);
                            assert forall|i: int| 0 <= i < before.len() implies before[i]@
                                != name@ by {
                                let q = choose|q: int|
                                    0 <= q < k && keys[q] == join_spec(parent@, before[i]@);
                                assert(keys[q] != keys[k as int]);
                            }
                        }
                        names.push(name);
                        added = true;
                    },
                    None => {},
                }
            }
            proof {
                assert forall|i: int| 0 <= i < names.len() implies exists|q: int|
                    0 <= q < k + 1 && keys[q] == join_spec(parent@, #[trigger] names[i]@) by {
                    if i < before.len() {
                        assert(names[i] == before[i]);
                        let q = choose|q: int|
                            0 <= q < k && keys[q] == join_spec(parent@, before[i]@);
                        assert(0 <= q < k + 1 && keys[q] == join_spec(parent@, names[i]@));
                    } else {
                        assert(keys[k as int] == join_spec(parent@, names[i]@));
                    }
                }
                assert forall|q: int, name: Seq<char>|
                    0 <= q < k + 1 && is_name(name) && keys[q] == join_spec(parent@, name)
                        && self@[keys[q]] == EntryKind::Directory implies exists|i: int|
                    0 <= i < names.len() && #[trigger] names[i]@ == name by {
                    if q < k {
                        let i = choose|i: int| 0 <= i < before.len() && before[i]@ == name;
                        assert(names[i]@ == name);
                    } else {
                        lemma_child_name(parent@, key@, name);
                        assert(added);
                        assert(names[before.len() as int]@ == name);
                    }
                }
            }
            k += 1;
        }
        proof {
            assert forall|name: Seq<char>| is_subdirectory(self@, parent@, name) implies exists|
                i: int,
            |
                0 <= i < names.len() && #[trigger] names[i]@ == name by {
                let p = join_spec(parent@, name);
                assert(keys.contains(p));
                let q = choose|q: int| 0 <= q < keys.len() && keys[q] == p;
                assert(0 <= q < k && is_name(name) && keys[q] == join_spec(parent@, name));
            }
        }
        names
    }
}

} // verus!
