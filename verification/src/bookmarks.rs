//! The user's bookmarks: a list in which no path stands twice.
use crate::text::same_text;
use crate::unix_path::{joined, lossy, UnixPath};
use crate::user_dirs;
use vstd::prelude::*;
use vstd::string::*;
use vstd::utf8::*;

verus! {

/// A bookmark.
#[derive(Debug)]
pub struct BookmarkEntry {
    pub name: String,
    pub path: String,
}

/// The bookmarks in the order in which they were added.
#[derive(Debug)]
pub struct BookmarkStore {
    pub entries: Vec<BookmarkEntry>,
}

/// A bookmark in mathematical terms: its name and its path.
pub open spec fn mark(e: BookmarkEntry) -> (Seq<char>, Seq<char>) {
    (e.name@, e.path@)
}

impl View for BookmarkStore {
    type V = Seq<(Seq<char>, Seq<char>)>;

    open spec fn view(&self) -> Seq<(Seq<char>, Seq<char>)> {
        self.entries@.map_values(|e: BookmarkEntry| mark(e))
    }
}

impl Default for BookmarkStore {
    fn default() -> (r: Self)
        ensures
            r@ == Seq::<(Seq<char>, Seq<char>)>::empty(),
    {
        let r = BookmarkStore { entries: Vec::new() };
        assert(r@ =~= Seq::<(Seq<char>, Seq<char>)>::empty());
        r
    }
}

/// The index of the first bookmark of `path`, or the number of bookmarks.
pub open spec fn find_path(marks: Seq<(Seq<char>, Seq<char>)>, path: Seq<char>) -> int
    decreases marks.len(),
{
    if marks.len() == 0 || marks[0].1 == path {
        0
    } else {
        1 + find_path(marks.skip(1), path)
    }
}

/// The bookmarks after `path` was given the name `name`: the first bookmark of
/// the path is renamed, or one is added at the end.
pub open spec fn upserted(
    marks: Seq<(Seq<char>, Seq<char>)>,
    name: Seq<char>,
    path: Seq<char>,
) -> Seq<(Seq<char>, Seq<char>)> {
    let i = find_path(marks, path);
    if i < marks.len() {
        marks.update(i, (name, path))
    } else {
        marks.push((name, path))
    }
}

/// The bookmarks of other paths than `path`.
pub open spec fn without_path(
    marks: Seq<(Seq<char>, Seq<char>)>,
    path: Seq<char>,
) -> Seq<(Seq<char>, Seq<char>)> {
    marks.filter(other_path(path))
}

/// Says of a bookmark that it is not one of `path`.
pub open spec fn other_path(path: Seq<char>) -> spec_fn((Seq<char>, Seq<char>)) -> bool {
    |m: (Seq<char>, Seq<char>)| m.1 != path
}

/// Whether no path is bookmarked twice.
pub open spec fn unique_paths(marks: Seq<(Seq<char>, Seq<char>)>) -> bool {
    forall|i: int, j: int| 0 <= i < j < marks.len() ==> marks[i].1 != marks[j].1
}

pub proof fn lemma_find_path(marks: Seq<(Seq<char>, Seq<char>)>, path: Seq<char>)
    ensures
        0 <= find_path(marks, path) <= marks.len(),
        forall|k: int| 0 <= k < find_path(marks, path) ==> (#[trigger] marks[k]).1 != path,
        find_path(marks, path) < marks.len() ==> marks[find_path(marks, path)].1 == path,
    decreases marks.len(),
{
    if marks.len() > 0 && marks[0].1 != path {
        lemma_find_path(marks.skip(1), path);
        assert forall|k: int| 0 <= k < find_path(marks, path) implies (#[trigger] marks[k]).1
            != path by {
            if k > 0 {
                assert(marks.skip(1)[k - 1] == marks[k]);
            }
        }
    }
}

impl BookmarkStore {
    /// Gives the bookmark of a path a name, adding it if there is none.
    pub fn upsert(&mut self, name: &str, path: &UnixPath)
        ensures
            final(self)@ == upserted(old(self)@, name@, lossy(path@)),
    {
        let p = path.display();
        proof {
            lemma_find_path(self@, p@);
        }
        let mut i: usize = 0;
        while i < self.entries.len()
            invariant
                self@ == old(self)@,
                self.entries@ == old(self).entries@,
                i <= self.entries@.len(),
                p@ == lossy(path@),
                i <= find_path(self@, p@) <= self@.len(),
                find_path(self@, p@) < self@.len() ==> self@[find_path(self@, p@)].1 == p@,
                forall|k: int| 0 <= k < find_path(self@, p@) ==> (#[trigger] self@[k]).1 != p@,
            decreases self.entries@.len() - i,
        {
            if same_text(self.entries[i].path.as_str(), p.as_str()) {
                assert(self@[i as int].1 == p@);
                let entry = BookmarkEntry { name: name.to_owned(), path: p };
                self.entries.set(i, entry);
                assert(self@ =~= upserted(old(self)@, name@, lossy(path@)));
                return ;
            }
            assert(self@[i as int].1 != p@);
            i += 1;
        }
        let entry = BookmarkEntry { name: name.to_owned(), path: p };
        self.entries.push(entry);
        assert(self@ =~= upserted(old(self)@, name@, lossy(path@)));
    }

    /// Removes the bookmarks of a path.
    pub fn remove_by_path(&mut self, path: &str)
        ensures
            final(self)@ == without_path(old(self)@, path@),
    {
        let mut old_entries: Vec<BookmarkEntry> = Vec::new();
        core::mem::swap(&mut self.entries, &mut old_entries);
        let ghost marks = old(self)@;
        let ghost keep = other_path(path@);
        let mut kept: Vec<BookmarkEntry> = Vec::new();
        let mut i: usize = 0;
        let n: usize = old_entries.len();
        let ghost all = old_entries@;
        assert(marks.take(0).filter(keep) =~= Seq::empty()) by {
            reveal(Seq::filter);
        }
        assert(kept@.map_values(|e: BookmarkEntry| mark(e)) =~= marks.take(0).filter(keep));
        while i < n
            invariant
                i <= n,
                n == all.len(),
                old_entries@ == all,
                marks == all.map_values(|e: BookmarkEntry| mark(e)),
                keep == other_path(path@),
                kept@.map_values(|e: BookmarkEntry| mark(e)) == marks.take(i as int).filter(keep),
            decreases n - i,
        {
            proof {
                assert(marks.take(i + 1) =~= marks.take(i as int).push(marks[i as int]));
                marks.take(i as int).lemma_filter_push(marks[i as int], keep);
            }
            if !same_text(old_entries[i].path.as_str(), path) {
                let ghost before = kept@;
                kept.push(
                    BookmarkEntry {
                        name: old_entries[i].name.clone(),
                        path: old_entries[i].path.clone(),
                    },
                );
                assert(kept@.map_values(|e: BookmarkEntry| mark(e)) =~= before.map_values(
                    |e: BookmarkEntry| mark(e),
                ).push(marks[i as int]));
            }
            i += 1;
        }
        assert(marks.take(n as int) =~= marks);
        self.entries = kept;
    }
}

/// A path is bookmarked once after it was added, under the new name, and the
/// bookmarks of other paths are as before.
pub proof fn upsert_bookmarks_once(
    marks: Seq<(Seq<char>, Seq<char>)>,
    name: Seq<char>,
    path: Seq<char>,
)
    requires
        unique_paths(marks),
    ensures
        unique_paths(upserted(marks, name, path)),
        upserted(marks, name, path).contains((name, path)),
        without_path(upserted(marks, name, path), path) == without_path(marks, path),
{
    lemma_find_path(marks, path);
    let i = find_path(marks, path);
    let after = upserted(marks, name, path);
    let keep = other_path(path);
    assert(after[i] == (name, path));
    if i < marks.len() {
        assert forall|a: int, b: int| 0 <= a < b < after.len() implies after[a].1 != after[b].1 by {
            assert(marks[a].1 != marks[b].1);
        }
        let head = marks.take(i);
        let tail = marks.skip(i + 1);
        assert(marks =~= head.push(marks[i]) + tail);
        assert(after =~= head.push((name, path)) + tail);
        Seq::filter_distributes_over_add(head.push(marks[i]), tail, keep);
        Seq::filter_distributes_over_add(head.push((name, path)), tail, keep);
        head.lemma_filter_push(marks[i], keep);
        head.lemma_filter_push((name, path), keep);
    } else {
        marks.lemma_filter_push((name, path), keep);
    }
}

/// A removed path is not bookmarked any more, and adding one that was not
/// bookmarked and removing it again changes nothing.
pub proof fn remove_undoes_add(
    marks: Seq<(Seq<char>, Seq<char>)>,
    name: Seq<char>,
    path: Seq<char>,
)
    ensures
        forall|m: (Seq<char>, Seq<char>)|
            without_path(marks, path).contains(m) ==> m.1 != path && marks.contains(m),
        (forall|i: int| 0 <= i < marks.len() ==> (#[trigger] marks[i]).1 != path) ==> without_path(
            upserted(marks, name, path),
            path,
        ) == marks,
{
    let keep = other_path(path);
    assert forall|m: (Seq<char>, Seq<char>)| without_path(marks, path).contains(m) implies m.1
        != path && marks.contains(m) by {
        let k = choose|k: int|
            0 <= k < without_path(marks, path).len() && without_path(marks, path)[k] == m;
        marks.lemma_filter_pred(keep, k);
        marks.lemma_filter_contains_rev(keep, m);
    }
    if forall|i: int| 0 <= i < marks.len() ==> (#[trigger] marks[i]).1 != path {
        lemma_find_path(marks, path);
        assert(upserted(marks, name, path) == marks.push((name, path)));
        marks.lemma_filter_push((name, path), keep);
        lemma_filter_all(marks, keep);
    }
}

proof fn lemma_filter_all(
    marks: Seq<(Seq<char>, Seq<char>)>,
    keep: spec_fn((Seq<char>, Seq<char>)) -> bool,
)
    requires
        forall|i: int| 0 <= i < marks.len() ==> keep(#[trigger] marks[i]),
    ensures
        marks.filter(keep) == marks,
    decreases marks.len(),
{
    reveal(Seq::filter);
    if marks.len() > 0 {
        lemma_filter_all(marks.drop_last(), keep);
        assert(marks.drop_last().push(marks.last()) =~= marks);
    } else {
        assert(marks.filter(keep) =~= marks);
    }
}

/// Where the application keeps its data, below the user's configuration.
pub open spec fn config_below(base: Seq<u8>) -> Seq<u8> {
    joined(joined(base, encode_utf8("mykrut"@)), encode_utf8("data"@))
}

/// Where the application keeps its data, below a configuration directory.
pub fn config_dir_in(base: &UnixPath) -> (r: UnixPath)
    ensures
        r@ == config_below(base@),
{
    base.join("mykrut").join("data")
}

/// Where the application keeps its data.
pub fn config_dir() -> (r: Option<UnixPath>)
    ensures
        r matches Some(p) ==> exists|base: Seq<u8>| p@ == #[trigger] config_below(base),
{
    match user_dirs::config_dir() {
        Some(base) => Some(config_dir_in(&base)),
        None => None,
    }
}

} // verus!
