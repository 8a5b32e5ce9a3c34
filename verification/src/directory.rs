//! Indexes of shared directories, the table of mounted directories, and
//! keyword search over them.

use vstd::prelude::*;

use crate::path::chars_of;
use crate::security::{contains_chars, contains_seq, lowercase, string_views, to_lowercase};

verus! {

/// One file or directory of an index.
#[derive(Debug)]
pub struct DirectoryEntry {
    /// Full path.
    pub path: String,
    /// Size in bytes.
    pub size: u64,
    /// Whether it is a directory.
    pub is_dir: bool,
    /// Last modification, in nanoseconds since the Unix epoch.
    pub modified: i128,
}

impl Clone for DirectoryEntry {
    fn clone(&self) -> (r: Self)
        ensures
            r == *self,
    {
        DirectoryEntry {
            path: self.path.clone(),
            size: self.size,
            is_dir: self.is_dir,
            modified: self.modified,
        }
    }
}

/// An index of a directory tree.
#[derive(Debug)]
pub struct DirectoryIndex {
    /// The indexed directory.
    pub root_path: String,
    /// Everything found under it.
    pub entries: Vec<DirectoryEntry>,
    /// When the index was made, in nanoseconds since the Unix epoch.
    pub generated_at: i128,
}

/// Some keyword occurs in the path, both taken in lower case.
pub open spec fn path_matches(path: Seq<char>, keywords: Seq<Seq<char>>) -> bool {
    exists|k: int| 0 <= k < keywords.len() && #[trigger] contains_seq(lowercase(path), lowercase(keywords[k]))
}

/// The paths of a list of entries.
pub open spec fn entry_paths(entries: Seq<DirectoryEntry>) -> Seq<Seq<char>> {
    entries.map_values(|e: DirectoryEntry| e.path@)
}

/// The paths of `entries` that match the keywords, in order.
pub open spec fn search_entries(entries: Seq<DirectoryEntry>, keywords: Seq<Seq<char>>) -> Seq<Seq<char>> {
    entry_paths(entries).filter(|p: Seq<char>| path_matches(p, keywords))
}

/// The lower-case forms of the keywords.
fn lowered_keywords(keywords: &[String]) -> (r: Vec<Vec<char>>)
    ensures
        r@.len() == keywords@.len(),
        forall|k: int| 0 <= k < keywords@.len() ==> #[trigger] r@[k]@ == lowercase(keywords@[k]@),
{
    let n = keywords.len();
    let mut out: Vec<Vec<char>> = Vec::new();
    let mut i: usize = 0;
    while i < n
        invariant
            n == keywords@.len(),
            i <= n,
            out@.len() == i,
            forall|k: int| 0 <= k < i ==> #[trigger] out@[k]@ == lowercase(keywords@[k]@),
        decreases n - i,
    {
        let lower = to_lowercase(keywords[i].as_str());
        out.push(chars_of(lower.as_str()));
        i = i + 1;
    }
    out
}

/// Whether some lowered keyword occurs in the lower-cased path.
fn matches_any(path: &String, lowered: &Vec<Vec<char>>, keywords: Ghost<Seq<Seq<char>>>) -> (r: bool)
    requires
        lowered@.len() == keywords@.len(),
        forall|k: int| 0 <= k < keywords@.len() ==> #[trigger] lowered@[k]@ == lowercase(keywords@[k]),
    ensures
        r == path_matches(path@, keywords@),
{
    let lower = to_lowercase(path.as_str());
    let lower_chars = chars_of(lower.as_str());
    let n = lowered.len();
    let mut k: usize = 0;
    while k < n
        invariant
            n == lowered@.len(),
            lowered@.len() == keywords@.len(),
            forall|j: int| 0 <= j < keywords@.len() ==> #[trigger] lowered@[j]@ == lowercase(keywords@[j]),
            k <= n,
            lower_chars@ == lowercase(path@),
            forall|j: int|
                0 <= j < k ==> !#[trigger] contains_seq(lowercase(path@), lowercase(keywords@[j])),
        decreases n - k,
    {
        if contains_chars(&lower_chars, &lowered[k]) {
            assert(contains_seq(lowercase(path@), lowercase(keywords@[k as int])));
            return true;
        }
        k = k + 1;
    }
    false
}

impl DirectoryIndex {
    /// The paths whose lower-case form contains the lower-case form of some
    /// keyword, in index order.
    pub fn search(&self, keywords: &[String]) -> (r: Vec<String>)
        ensures
            string_views(r@) == search_entries(self.entries@, string_views(keywords@)),
    {
        let ghost kws = string_views(keywords@);
        let lowered = lowered_keywords(keywords);
        let ghost paths = entry_paths(self.entries@);
        let ghost pred = |p: Seq<char>| path_matches(p, kws);
        let n = self.entries.len();
        let mut out: Vec<String> = Vec::new();
        let mut i: usize = 0;
        assert(paths.take(0).filter(pred) =~= Seq::<Seq<char>>::empty()) by {
            reveal(Seq::filter);
        }
        assert(string_views(out@) =~= Seq::<Seq<char>>::empty());
        while i < n
            invariant
                n == self.entries@.len(),
                i <= n,
                kws == string_views(keywords@),
                paths == entry_paths(self.entries@),
                pred == (|p: Seq<char>| path_matches(p, kws)),
                lowered@.len() == kws.len(),
                forall|k: int| 0 <= k < kws.len() ==> #[trigger] lowered@[k]@ == lowercase(kws[k]),
                string_views(out@) == paths.take(i as int).filter(pred),
            decreases n - i,
        {
            assert(paths.take(i as int + 1).drop_last() =~= paths.take(i as int));
            assert(paths.take(i as int + 1).filter(pred) == if pred(paths[i as int]) {
                paths.take(i as int).filter(pred).push(paths[i as int])
            } else {
                paths.take(i as int).filter(pred)
            }) by {
                reveal(Seq::filter);
            }
            let ghost before = out@;
            if matches_any(&self.entries[i].path, &lowered, Ghost(kws)) {
                out.push(self.entries[i].path.clone());
                assert(string_views(out@) =~= string_views(before).push(paths[i as int]));
            }
            i = i + 1;
        }
        assert(paths.take(n as int) =~= paths);
        out
    }
}

/// The search results of each index in turn, concatenated.
pub open spec fn search_all(indexes: Seq<DirectoryIndex>, keywords: Seq<Seq<char>>) -> Seq<Seq<char>>
    decreases indexes.len(),
{
    if indexes.len() == 0 {
        Seq::empty()
    } else {
        search_all(indexes.drop_last(), keywords) + search_entries(indexes.last().entries@, keywords)
    }
}

/// The directories a gateway shares, each under a distinct mount name, in
/// the order they were first mounted.
pub struct MountTable {
    names: Vec<String>,
    indexes: Vec<DirectoryIndex>,
}

/// The position of `name` among `names`, if it is there.
pub open spec fn name_index(names: Seq<Seq<char>>, name: Seq<char>) -> Option<int> {
    if exists|i: int| 0 <= i < names.len() && #[trigger] names[i] == name {
        Some(choose|i: int| 0 <= i < names.len() && #[trigger] names[i] == name)
    } else {
        None
    }
}

impl MountTable {
    #[verifier::type_invariant]
    closed spec fn well_formed(self) -> bool {
        &&& self.names@.len() == self.indexes@.len()
        &&& string_views(self.names@).no_duplicates()
    }

    /// The mount names, in mounting order.
    pub closed spec fn mount_names(&self) -> Seq<Seq<char>> {
        string_views(self.names@)
    }

    /// The index under each mount name, in the same order.
    pub closed spec fn mounted_indexes(&self) -> Seq<DirectoryIndex> {
        self.indexes@
    }

    /// No directory is mounted.
    pub fn new() -> (r: Self)
        ensures
            r.mount_names() == Seq::<Seq<char>>::empty(),
            r.mounted_indexes() == Seq::<DirectoryIndex>::empty(),
    {
        let r = MountTable { names: Vec::new(), indexes: Vec::new() };
        assert(r.mount_names() =~= Seq::<Seq<char>>::empty());
        r
    }

    /// Mounts `index` under `name`, replacing what was mounted there before.
    pub fn mount(&mut self, name: String, index: DirectoryIndex)
        ensures
            match name_index(old(self).mount_names(), name@) {
                Some(i) => final(self).mount_names() == old(self).mount_names()
                    && final(self).mounted_indexes() == old(self).mounted_indexes().update(i, index),
                None => final(self).mount_names() == old(self).mount_names().push(name@)
                    && final(self).mounted_indexes() == old(self).mounted_indexes().push(index),
            },
    {
        proof {
            use_type_invariant(&*self);
        }
        let ghost old_names = string_views(self.names@);
        let mut table = MountTable::new();
        std::mem::swap(&mut table, self);
        let MountTable { mut names, mut indexes } = table;
        match find_name(&names, &name) {
            Some(i) => {
                indexes.set(i, index);
            },
            None => {
                let ghost nm = name@;
                names.push(name);
                indexes.push(index);
                proof {
                    assert(string_views(names@) =~= old_names.push(nm));
                    lemma_push_distinct(old_names, nm);
                }
            },
        }
        *self = MountTable { names, indexes };
    }

    /// Unmounts the directory under `name`; returns whether there was one.
    pub fn unmount(&mut self, name: &str) -> (r: bool)
        ensures
            r == (name_index(old(self).mount_names(), name@) is Some),
            match name_index(old(self).mount_names(), name@) {
                Some(i) => final(self).mount_names() == old(self).mount_names().remove(i)
                    && final(self).mounted_indexes() == old(self).mounted_indexes().remove(i),
                None => final(self).mount_names() == old(self).mount_names()
                    && final(self).mounted_indexes() == old(self).mounted_indexes(),
            },
    {
        proof {
            use_type_invariant(&*self);
        }
        let ghost old_names = string_views(self.names@);
        let target = String::from_str(name);
        let mut table = MountTable::new();
        std::mem::swap(&mut table, self);
        let MountTable { mut names, mut indexes } = table;
        let found = match find_name(&names, &target) {
            Some(i) => {
                names.remove(i);
                indexes.remove(i);
                proof {
                    assert(string_views(names@) =~= old_names.remove(i as int));
                    assert forall|a: int, b: int|
                        0 <= a < names@.len() && 0 <= b < names@.len() && a != b implies string_views(
                        names@,
                    )[a] != string_views(names@)[b] by {
                        let a0 = if a < i { a } else { a + 1 };
                        let b0 = if b < i { b } else { b + 1 };
                        assert(string_views(names@)[a] == old_names[a0]);
                        assert(string_views(names@)[b] == old_names[b0]);
                    }
                }
                true
            },
            None => false,
        };
        *self = MountTable { names, indexes };
        found
    }

    /// The mount names, in mounting order.
    pub fn get_mounted_directories(&self) -> (r: Vec<String>)
        ensures
            string_views(r@) == self.mount_names(),
    {
        let n = self.names.len();
        let mut out: Vec<String> = Vec::new();
        let mut i: usize = 0;
        while i < n
            invariant
                n == self.names@.len(),
                i <= n,
                string_views(out@) == string_views(self.names@).take(i as int),
            decreases n - i,
        {
            let c = self.names[i].clone();
            let ghost before = out@;
            out.push(c);
            assert(string_views(out@) =~= string_views(before).push(self.names@[i as int]@));
            assert(string_views(out@) =~= string_views(self.names@).take(i as int + 1));
            i = i + 1;
        }
        assert(string_views(self.names@).take(n as int) =~= string_views(self.names@));
        out
    }

    /// The search results of every mounted index, in mounting order.
    pub fn search_files(&self, keywords: &[String]) -> (r: Vec<String>)
        ensures
            string_views(r@) == search_all(self.mounted_indexes(), string_views(keywords@)),
    {
        let ghost kws = string_views(keywords@);
        let n = self.indexes.len();
        let mut out: Vec<String> = Vec::new();
        let mut i: usize = 0;
        assert(self.indexes@.take(0) =~= Seq::<DirectoryIndex>::empty());
        assert(string_views(out@) =~= Seq::<Seq<char>>::empty());
        while i < n
            invariant
                n == self.indexes@.len(),
                i <= n,
                kws == string_views(keywords@),
                string_views(out@) == search_all(self.indexes@.take(i as int), kws),
            decreases n - i,
        {
            let found = self.indexes[i].search(keywords);
            let ghost before = out@;
            let m = found.len();
            let mut j: usize = 0;
            while j < m
                invariant
                    m == found@.len(),
                    j <= m,
                    string_views(out@) == string_views(before) + string_views(found@).take(j as int),
                decreases m - j,
            {
                let c = found[j].clone();
                let ghost prev = out@;
                out.push(c);
                assert(string_views(out@) =~= string_views(prev).push(found@[j as int]@));
                assert(string_views(out@) =~= string_views(before) + string_views(found@).take(j as int + 1));
                j = j + 1;
            }
            assert(string_views(found@).take(m as int) =~= string_views(found@));
            assert(self.indexes@.take(i as int + 1).drop_last() =~= self.indexes@.take(i as int));
            i = i + 1;
        }
        assert(self.indexes@.take(n as int) =~= self.indexes@);
        out
    }

    /// Unmounts everything.
    pub fn clear(&mut self)
        ensures
            final(self).mount_names() == Seq::<Seq<char>>::empty(),
            final(self).mounted_indexes() == Seq::<DirectoryIndex>::empty(),
    {
        *self = MountTable::new();
    }
}

/// The position of `name` among `names`, which are distinct.
fn find_name(names: &Vec<String>, name: &String) -> (r: Option<usize>)
    requires
        string_views(names@).no_duplicates(),
    ensures
        r is Some <==> name_index(string_views(names@), name@) is Some,
        r matches Some(i) ==> name_index(string_views(names@), name@) == Some(i as int) && i < names@.len(),
{
    let ghost views = string_views(names@);
    let n = names.len();
    let mut i: usize = 0;
    while i < n
        invariant
            n == names@.len(),
            views == string_views(names@),
            views.no_duplicates(),
            i <= n,
            forall|j: int| 0 <= j < i ==> views[j] != name@,
        decreases n - i,
    {
        if names[i].eq(name) {
            assert(views[i as int] == name@);
            let ghost j = choose|j: int| 0 <= j < views.len() && #[trigger] views[j] == name@;
            assert(j == i as int) by {
                if j != i as int {
                    assert(views[j] != views[i as int]);
                }
            }
            return Some(i);
        }
        i = i + 1;
    }
    None
}

proof fn lemma_push_distinct(s: Seq<Seq<char>>, x: Seq<char>)
    requires
        s.no_duplicates(),
        name_index(s, x) is None,
    ensures
        s.push(x).no_duplicates(),
{
    assert forall|a: int, b: int| 0 <= a < s.len() + 1 && 0 <= b < s.len() + 1 && a != b implies s.push(x)[a]
        != s.push(x)[b] by {
        if a < s.len() && b < s.len() {
        } else if a < s.len() {
            assert(s[a] != x);
        } else {
            assert(s[b] != x);
        }
    }
}

} // verus!
