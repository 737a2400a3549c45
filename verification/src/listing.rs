//! The listing of a place: what is shown of it, in which order, and how rows
//! are selected, removed and opened.
use crate::calendar::{human_mtime, mtime_text, wrap_i32};
use crate::compress::pack_u64;
use crate::copy_progress::{CopyError, Op};
use crate::copy_run::path_views;
use crate::disk_space::DiskSpace;
use crate::format_util::{human_size, kind_of, kind_text, size_text};
use crate::icon_map::{entry_icon, icon_for_entry};
use crate::navigation::same_place;
use crate::num_text::{decimal, decimal_text};
use crate::sort_select::{
    all_comparable, folders_come_first, rows_exist, sort_indices, sortable, sorted_from, SortKey,
    SortOrder,
};
use crate::state::{opt_place, AppState};
use crate::types::{entry_views, EntryView, FileEntry, FileType, Location, Place};
use crate::unix_path::{components, joined, lossy, lossy_text, parent, UnixPath};
use crate::user_dirs::{opt_path, UserDirs};
use std::collections::HashSet;
use vstd::prelude::*;
use vstd::std_specs::hash::*;
use vstd::string::*;
use vstd::utf8::*;

verus! {

broadcast use group_hash_axioms;

// ---------------------------------------------------------------------------
// Which entries are shown, and in which order
// ---------------------------------------------------------------------------

/// The positions below `n` of the entries that are shown.
pub open spec fn visible_upto(es: Seq<EntryView>, show_hidden: bool, n: int) -> Seq<usize>
    decreases n,
{
    if n <= 0 {
        Seq::empty()
    } else if show_hidden || !es[n - 1].is_hidden {
        visible_upto(es, show_hidden, n - 1).push((n - 1) as usize)
    } else {
        visible_upto(es, show_hidden, n - 1)
    }
}

/// The first `n` rows that name folders, or those that name something else.
pub open spec fn of_kind_upto(es: Seq<EntryView>, rows: Seq<usize>, dirs: bool, n: int) -> Seq<
    usize,
>
    decreases n,
{
    if n <= 0 {
        Seq::empty()
    } else if (es[rows[n - 1] as int].file_type == FileType::Directory) == dirs {
        of_kind_upto(es, rows, dirs, n - 1).push(rows[n - 1])
    } else {
        of_kind_upto(es, rows, dirs, n - 1)
    }
}

/// The rows with the folders first, otherwise as they stood.
pub open spec fn folders_first(es: Seq<EntryView>, rows: Seq<usize>) -> Seq<usize> {
    of_kind_upto(es, rows, true, rows.len() as int) + of_kind_upto(
        es,
        rows,
        false,
        rows.len() as int,
    )
}

/// Whether `shown` are the entries of a full listing in the order of a view:
/// hidden ones left out unless they are to be shown, sorted if the names that are
/// shown allow it, else with the folders first as they were listed. `rows` says
/// which entry each row shows.
pub open spec fn is_view(
    all: Seq<EntryView>,
    shown: Seq<EntryView>,
    show_hidden: bool,
    key: SortKey,
    order: SortOrder,
    rows: Seq<usize>,
) -> bool {
    let visible = visible_upto(all, show_hidden, all.len() as int);
    &&& rows.len() == shown.len()
    &&& forall|k: int|
        0 <= k < rows.len() ==> (#[trigger] rows[k]) < all.len() && shown[k] == all[rows[k] as int]
    &&& if sortable(all, visible, key) {
        exists|moved: Seq<usize>| sorted_from(all, visible, rows, key, order, moved)
    } else {
        rows == folders_first(all, visible)
    }
}

proof fn lemma_visible(es: Seq<EntryView>, show_hidden: bool, n: int)
    requires
        0 <= n <= es.len(),
        es.len() <= usize::MAX,
    ensures
        forall|k: int|
            0 <= k < visible_upto(es, show_hidden, n).len() ==> (#[trigger] visible_upto(
                es,
                show_hidden,
                n,
            )[k]) < n,
        visible_upto(es, show_hidden, n).len() <= n,
    decreases n,
{
    if n > 0 {
        lemma_visible(es, show_hidden, n - 1);
    }
}

fn visible_rows(entries: &Vec<FileEntry>, show_hidden: bool) -> (r: Vec<usize>)
    ensures
        r@ == visible_upto(entry_views(entries@), show_hidden, entries@.len() as int),
{
    let ghost es = entry_views(entries@);
    let mut v: Vec<usize> = Vec::new();
    let mut i: usize = 0;
    while i < entries.len()
        invariant
            i <= entries@.len(),
            es == entry_views(entries@),
            v@ == visible_upto(es, show_hidden, i as int),
        decreases entries@.len() - i,
    {
        assert(es[i as int] == entries@[i as int]@);
        if show_hidden || !entries[i].is_hidden {
            v.push(i);
        }
        i += 1;
    }
    v
}

proof fn lemma_of_kind(es: Seq<EntryView>, rows: Seq<usize>, dirs: bool, n: int, k: int)
    requires
        0 <= n <= rows.len(),
        0 <= k < of_kind_upto(es, rows, dirs, n).len(),
    ensures
        ({
            let row = of_kind_upto(es, rows, dirs, n)[k];
            &&& rows.contains(row)
            &&& (es[row as int].file_type == FileType::Directory) == dirs
        }),
    decreases n,
{
    if n > 0 {
        if k < of_kind_upto(es, rows, dirs, n - 1).len() {
            lemma_of_kind(es, rows, dirs, n - 1, k);
        } else {
            assert(rows[n - 1] == of_kind_upto(es, rows, dirs, n)[k]);
        }
    }
}

proof fn lemma_folders_first(es: Seq<EntryView>, rows: Seq<usize>, k: int)
    requires
        0 <= k < folders_first(es, rows).len(),
    ensures
        rows.contains(folders_first(es, rows)[k]),
        (es[folders_first(es, rows)[k] as int].file_type == FileType::Directory) == (k
            < of_kind_upto(es, rows, true, rows.len() as int).len()),
{
    let n = rows.len() as int;
    let dirs = of_kind_upto(es, rows, true, n);
    if k < dirs.len() {
        lemma_of_kind(es, rows, true, n, k);
    } else {
        lemma_of_kind(es, rows, false, n, k - dirs.len());
    }
}

fn put_folders_first(entries: &Vec<FileEntry>, rows: &Vec<usize>) -> (r: Vec<usize>)
    requires
        rows_exist(entry_views(entries@), rows@),
    ensures
        r@ == folders_first(entry_views(entries@), rows@),
{
    let ghost es = entry_views(entries@);
    let mut dirs: Vec<usize> = Vec::new();
    let mut others: Vec<usize> = Vec::new();
    let mut i: usize = 0;
    while i < rows.len()
        invariant
            i <= rows@.len(),
            es == entry_views(entries@),
            rows_exist(es, rows@),
            dirs@ == of_kind_upto(es, rows@, true, i as int),
            others@ == of_kind_upto(es, rows@, false, i as int),
        decreases rows@.len() - i,
    {
        let x: usize = rows[i];
        assert(es[x as int] == entries@[x as int]@);
        if entries[x].is_dir() {
            dirs.push(x);
        } else {
            others.push(x);
        }
        i += 1;
    }
    dirs.append(&mut others);
    dirs
}

/// The entries of a full listing as they are shown. Where the names that are
/// shown cannot be compared, the folders come first and the order is otherwise
/// left as it is.
pub fn view_of(all: &Vec<FileEntry>, show_hidden: bool, key: SortKey, order: SortOrder) -> (r: Vec<
    FileEntry,
>)
    ensures
        exists|rows: Seq<usize>|
            is_view(entry_views(all@), entry_views(r@), show_hidden, key, order, rows),
{
    let ghost es = entry_views(all@);
    let n: usize = all.len();
    let mut rows = visible_rows(all, show_hidden);
    let ghost visible = rows@;
    proof {
        lemma_visible(es, show_hidden, n as int);
    }
    let ordered: bool = all_comparable(all, &rows, key);
    if ordered {
        sort_indices(&mut rows, all, key, order);
        proof {
            let moved = choose|moved: Seq<usize>|
                sorted_from(es, visible, rows@, key, order, moved);
            assert forall|k: int| 0 <= k < rows@.len() implies (#[trigger] rows@[k]) < all@.len() by {
                assert(rows@[k] == visible[moved[k] as int]);
            }
        }
    } else {
        rows = put_folders_first(all, &rows);
        assert forall|k: int| 0 <= k < rows@.len() implies (#[trigger] rows@[k]) < all@.len() by {
            lemma_folders_first(es, visible, k);
        }
    }
    let mut out: Vec<FileEntry> = Vec::new();
    let mut k: usize = 0;
    while k < rows.len()
        invariant
            k <= rows@.len(),
            es == entry_views(all@),
            forall|m: int| 0 <= m < rows@.len() ==> (#[trigger] rows@[m]) < all@.len(),
            out@.len() == k,
            forall|m: int| 0 <= m < k ==> (#[trigger] out@[m])@ == es[rows@[m] as int],
        decreases rows@.len() - k,
    {
        let i: usize = rows[k];
        assert(es[i as int] == all@[i as int]@);
        out.push(all[i].clone());
        k += 1;
    }
    assert(ordered ==> exists|moved: Seq<usize>|
        sorted_from(es, visible, rows@, key, order, moved));
    assert(!ordered ==> rows@ == folders_first(es, visible));
    assert forall|m: int| 0 <= m < rows@.len() implies (#[trigger] rows@[m]) < es.len()
        && entry_views(out@)[m] == es[rows@[m] as int] by {
        assert(entry_views(out@)[m] == out@[m]@);
    }
    assert(es.len() == all@.len());
    assert(visible == visible_upto(es, show_hidden, es.len() as int));
    assert(entry_views(out@).len() == rows@.len());
    assert(is_view(es, entry_views(out@), show_hidden, key, order, rows@));
    out
}

/// Hidden files are shown exactly when they are to be shown, and whatever is
/// shown was listed.
pub proof fn view_shows_what_was_listed(
    all: Seq<EntryView>,
    shown: Seq<EntryView>,
    show_hidden: bool,
    key: SortKey,
    order: SortOrder,
    rows: Seq<usize>,
    k: int,
)
    requires
        is_view(all, shown, show_hidden, key, order, rows),
        all.len() <= usize::MAX,
        0 <= k < shown.len(),
    ensures
        all.contains(shown[k]),
        !show_hidden ==> !shown[k].is_hidden,
{
    let visible = visible_upto(all, show_hidden, all.len() as int);
    assert(shown[k] == all[rows[k] as int]);
    let v: int = if sortable(all, visible, key) {
        let moved = choose|moved: Seq<usize>| sorted_from(all, visible, rows, key, order, moved);
        assert(rows[k] == visible[moved[k] as int]);
        moved[k] as int
    } else {
        lemma_folders_first(all, visible, k);
        choose|v: int| 0 <= v < visible.len() && visible[v] == rows[k]
    };
    lemma_visible_not_hidden(all, show_hidden, all.len() as int, v);
}

/// A listing shows its folders before everything else, whatever it is sorted by
/// and whatever its names are.
pub proof fn listings_show_folders_first(
    all: Seq<EntryView>,
    shown: Seq<EntryView>,
    show_hidden: bool,
    key: SortKey,
    order: SortOrder,
    rows: Seq<usize>,
    i: int,
    j: int,
)
    requires
        is_view(all, shown, show_hidden, key, order, rows),
        0 <= i < j < shown.len(),
        shown[j].file_type == FileType::Directory,
    ensures
        shown[i].file_type == FileType::Directory,
{
    let visible = visible_upto(all, show_hidden, all.len() as int);
    assert(shown[i] == all[rows[i] as int]);
    assert(shown[j] == all[rows[j] as int]);
    if sortable(all, visible, key) {
        let moved = choose|moved: Seq<usize>| sorted_from(all, visible, rows, key, order, moved);
        folders_come_first(all, visible, rows, key, order, moved, i, j);
    } else {
        lemma_folders_first(all, visible, i);
        lemma_folders_first(all, visible, j);
    }
}

proof fn lemma_visible_not_hidden(es: Seq<EntryView>, show_hidden: bool, n: int, k: int)
    requires
        0 <= n <= es.len(),
        es.len() <= usize::MAX,
        0 <= k < visible_upto(es, show_hidden, n).len(),
    ensures
        visible_upto(es, show_hidden, n)[k] < n,
        show_hidden || !es[visible_upto(es, show_hidden, n)[k] as int].is_hidden,
    decreases n,
{
    if n > 0 && k < visible_upto(es, show_hidden, n - 1).len() {
        lemma_visible_not_hidden(es, show_hidden, n - 1, k);
    }
}

// ---------------------------------------------------------------------------
// Rows
// ---------------------------------------------------------------------------

/// A row of a listing.
#[derive(Debug)]
pub struct FileRowData {
    pub display_name: String,
    pub icon_name: String,
    pub is_dir: bool,
    pub is_symlink: bool,
    pub is_hidden: bool,
    pub is_cut: bool,
    pub selected: bool,
    pub has_thumbnail: bool,
    pub size_text: String,
    pub modified_text: String,
    pub kind_text: String,
    pub size_lo: i32,
    pub size_hi: i32,
}

/// A row of a listing in mathematical terms.
pub struct RowView {
    pub display_name: Seq<char>,
    pub icon_name: Seq<char>,
    pub is_dir: bool,
    pub is_symlink: bool,
    pub is_hidden: bool,
    pub is_cut: bool,
    pub selected: bool,
    pub has_thumbnail: bool,
    pub size_text: Seq<char>,
    pub modified_text: Seq<char>,
    pub kind_text: Seq<char>,
    pub size_lo: int,
    pub size_hi: int,
}

impl View for FileRowData {
    type V = RowView;

    open spec fn view(&self) -> RowView {
        RowView {
            display_name: self.display_name@,
            icon_name: self.icon_name@,
            is_dir: self.is_dir,
            is_symlink: self.is_symlink,
            is_hidden: self.is_hidden,
            is_cut: self.is_cut,
            selected: self.selected,
            has_thumbnail: self.has_thumbnail,
            size_text: self.size_text@,
            modified_text: self.modified_text@,
            kind_text: self.kind_text@,
            size_lo: self.size_lo as int,
            size_hi: self.size_hi as int,
        }
    }
}

/// Whether a path is among others.
pub open spec fn has_path(paths: Seq<Seq<u8>>, p: Seq<u8>) -> bool {
    exists|i: int| 0 <= i < paths.len() && components(#[trigger] paths[i]) == components(p)
}

/// Whether a path is among others.
pub fn contains_path(paths: &Vec<UnixPath>, p: &UnixPath) -> (r: bool)
    ensures
        r == has_path(path_views(paths@), p@),
{
    let ghost ps = path_views(paths@);
    let mut i: usize = 0;
    while i < paths.len()
        invariant
            i <= paths@.len(),
            ps == path_views(paths@),
            forall|k: int| 0 <= k < i ==> components(#[trigger] ps[k]) != components(p@),
        decreases paths@.len() - i,
    {
        assert(ps[i as int] == paths@[i as int]@);
        if paths[i].same(p) {
            return true;
        }
        i += 1;
    }
    false
}

/// The row of an entry. An entry that was cut is marked, and one that had a
/// thumbnail keeps it.
pub open spec fn row_of(
    e: EntryView,
    dirs: UserDirs,
    clipboard: Seq<Seq<u8>>,
    is_cut: bool,
    carried: Seq<Seq<u8>>,
) -> RowView {
    let is_dir = e.file_type == FileType::Directory;
    RowView {
        display_name: e.display_name,
        icon_name: entry_icon(e, dirs),
        is_dir,
        is_symlink: e.is_symlink,
        is_hidden: e.is_hidden,
        is_cut: is_cut && has_path(clipboard, e.path),
        selected: false,
        has_thumbnail: has_path(carried, e.path),
        size_text: if is_dir {
            "—"@
        } else {
            size_text(e.size as nat)
        },
        modified_text: mtime_text(e.mtime),
        kind_text: kind_of(e.mime, is_dir),
        size_lo: wrap_i32(e.size as int % 0x1_0000_0000),
        size_hi: wrap_i32(e.size as int / 0x1_0000_0000),
    }
}

/// Makes the row of an entry.
pub fn file_entry_to_row(
    e: &FileEntry,
    dirs: &UserDirs,
    clipboard: &Vec<UnixPath>,
    is_cut: bool,
    carried: &Vec<UnixPath>,
) -> (r: FileRowData)
    ensures
        r@ == row_of(e@, *dirs, path_views(clipboard@), is_cut, path_views(carried@)),
{
    let (size_lo, size_hi) = pack_u64(e.size);
    let is_dir: bool = e.is_dir();
    FileRowData {
        display_name: e.display_name.clone(),
        icon_name: icon_for_entry(e, dirs).to_owned(),
        is_dir,
        is_symlink: e.is_symlink,
        is_hidden: e.is_hidden,
        is_cut: is_cut && contains_path(clipboard, &e.path),
        selected: false,
        has_thumbnail: contains_path(carried, &e.path),
        size_text: if is_dir {
            "—".to_owned()
        } else {
            human_size(e.size)
        },
        modified_text: human_mtime(e.mtime),
        kind_text: kind_text(&e.mime, is_dir),
        size_lo,
        size_hi,
    }
}

/// The rows of a list of entries.
pub fn rows_of(
    entries: &Vec<FileEntry>,
    dirs: &UserDirs,
    clipboard: &Vec<UnixPath>,
    is_cut: bool,
    carried: &Vec<UnixPath>,
) -> (r: Vec<FileRowData>)
    ensures
        r@.len() == entries@.len(),
        forall|i: int|
            0 <= i < r@.len() ==> (#[trigger] r@[i])@ == row_of(
                entries@[i]@,
                *dirs,
                path_views(clipboard@),
                is_cut,
                path_views(carried@),
            ),
{
    let mut r: Vec<FileRowData> = Vec::new();
    let mut i: usize = 0;
    while i < entries.len()
        invariant
            i <= entries@.len(),
            r@.len() == i,
            forall|k: int|
                0 <= k < i ==> (#[trigger] r@[k])@ == row_of(
                    entries@[k]@,
                    *dirs,
                    path_views(clipboard@),
                    is_cut,
                    path_views(carried@),
                ),
        decreases entries@.len() - i,
    {
        r.push(file_entry_to_row(&entries[i], dirs, clipboard, is_cut, carried));
        i += 1;
    }
    r
}

/// The paths of the entries whose rows have a thumbnail.
pub fn snapshot_thumbs(entries: &Vec<FileEntry>, has_thumbnail: &Vec<bool>) -> (r: Vec<UnixPath>)
    ensures
        path_views(r@) == thumbs_upto(entry_views(entries@), has_thumbnail@, entries@.len() as int),
{
    let ghost es = entry_views(entries@);
    let mut r: Vec<UnixPath> = Vec::new();
    let mut i: usize = 0;
    assert(path_views(r@) =~= thumbs_upto(es, has_thumbnail@, 0));
    while i < entries.len()
        invariant
            i <= entries@.len(),
            es == entry_views(entries@),
            path_views(r@) == thumbs_upto(es, has_thumbnail@, i as int),
        decreases entries@.len() - i,
    {
        assert(es[i as int] == entries@[i as int]@);
        if i < has_thumbnail.len() && has_thumbnail[i] {
            let ghost before = r@;
            r.push(entries[i].path.clone());
            assert(path_views(r@) =~= path_views(before).push(es[i as int].path));
        }
        i += 1;
    }
    r
}

/// The paths of the first `n` entries whose rows have a thumbnail.
pub open spec fn thumbs_upto(es: Seq<EntryView>, flags: Seq<bool>, n: int) -> Seq<Seq<u8>>
    decreases n,
{
    if n <= 0 {
        Seq::empty()
    } else if n - 1 < flags.len() && flags[n - 1] {
        thumbs_upto(es, flags, n - 1).push(es[n - 1].path)
    } else {
        thumbs_upto(es, flags, n - 1)
    }
}

/// Which entries are marked as cut.
pub fn mark_clipboard_visuals(state: &AppState) -> (r: Vec<bool>)
    ensures
        r@.len() == state.entries@.len(),
        forall|i: int|
            0 <= i < r@.len() ==> (#[trigger] r@[i] == (state.clipboard.cut && has_path(
                path_views(state.clipboard.paths@),
                state.entries@[i].path@,
            ))),
{
    let mut r: Vec<bool> = Vec::new();
    let mut i: usize = 0;
    while i < state.entries.len()
        invariant
            i <= state.entries@.len(),
            r@.len() == i,
            forall|k: int|
                0 <= k < i ==> (#[trigger] r@[k] == (state.clipboard.cut && has_path(
                    path_views(state.clipboard.paths@),
                    state.entries@[k].path@,
                ))),
        decreases state.entries@.len() - i,
    {
        let cut: bool = state.clipboard.cut && contains_path(
            &state.clipboard.paths,
            &state.entries[i].path,
        );
        r.push(cut);
        i += 1;
    }
    r
}

// ---------------------------------------------------------------------------
// Listing a place
// ---------------------------------------------------------------------------

/// Whether two windows differ in the listing of the active tab at most: its
/// place, entries and selection.
pub open spec fn same_but_listing(a: AppState, b: AppState) -> bool {
    &&& a.rows_model == b.rows_model
    &&& a.back_stack == b.back_stack
    &&& a.forward_stack == b.forward_stack
    &&& a.tabs == b.tabs
    &&& a.active_tab_idx == b.active_tab_idx
    &&& a.clipboard == b.clipboard
    &&& a.undo == b.undo
    &&& a.drag_paths == b.drag_paths
    &&& a.rubberband_base == b.rubberband_base
    &&& a.search_anchor == b.search_anchor
    &&& a.search_hit_paths == b.search_hit_paths
    &&& a.search_on_right == b.search_on_right
    &&& a.search_root == b.search_root
    &&& a.inactive_pane == b.inactive_pane
    &&& a.active_is_right == b.active_is_right
    &&& a.next_model == b.next_model
}

/// Clears the listing before another place is listed; a place that is listed
/// anew keeps its rows meanwhile. Returns whether the listing was cleared.
pub fn begin_listing(state: &mut AppState, target: &Location) -> (r: bool)
    ensures
        r == !(opt_place(old(state).current) matches Some(c) && same_place(c, target@)),
        !r ==> *final(state) == *old(state),
        r ==> {
            &&& final(state).entries@.len() == 0
            &&& final(state).all_entries@.len() == 0
            &&& final(state).selected@ == Set::<usize>::empty()
            &&& final(state).anchor is None
            &&& final(state).current == old(state).current
            &&& final(state).pending_select == old(state).pending_select
        },
        same_but_listing(*final(state), *old(state)),
{
    let same: bool = match &state.current {
        Some(c) => crate::navigation::loc_eq(c, target),
        None => false,
    };
    if same {
        return false;
    }
    state.entries.clear();
    state.all_entries.clear();
    state.selected.clear();
    state.anchor = None;
    true
}

/// Shows the full listing in the order of a view, with nothing selected.
/// Returns the rows.
pub fn rebuild_rows(
    state: &mut AppState,
    show_hidden: bool,
    key: SortKey,
    order: SortOrder,
    dirs: &UserDirs,
    carried: &Vec<UnixPath>,
) -> (r: Vec<FileRowData>)
    ensures
        exists|rows: Seq<usize>|
            is_view(
                entry_views(old(state).all_entries@),
                entry_views(final(state).entries@),
                show_hidden,
                key,
                order,
                rows,
            ),
        final(state).selected@ == Set::<usize>::empty(),
        final(state).anchor is None,
        final(state).all_entries == old(state).all_entries,
        final(state).current == old(state).current,
        final(state).pending_select == old(state).pending_select,
        same_but_listing(*final(state), *old(state)),
        r@.len() == final(state).entries@.len(),
        forall|i: int|
            0 <= i < r@.len() ==> (#[trigger] r@[i])@ == row_of(
                final(state).entries@[i]@,
                *dirs,
                path_views(old(state).clipboard.paths@),
                old(state).clipboard.cut,
                path_views(carried@),
            ),
{
    state.entries = view_of(&state.all_entries, show_hidden, key, order);
    state.selected.clear();
    state.anchor = None;
    rows_of(&state.entries, dirs, &state.clipboard.paths, state.clipboard.cut, carried)
}

/// Takes the full listing of a place, which is current from now on. Returns the
/// rows.
pub fn finish_listing(
    state: &mut AppState,
    target: Location,
    listed: Vec<FileEntry>,
    show_hidden: bool,
    key: SortKey,
    order: SortOrder,
    dirs: &UserDirs,
    carried: &Vec<UnixPath>,
) -> (r: Vec<FileRowData>)
    ensures
        final(state).current == Some(target),
        final(state).all_entries == listed,
        exists|rows: Seq<usize>|
            is_view(
                entry_views(listed@),
                entry_views(final(state).entries@),
                show_hidden,
                key,
                order,
                rows,
            ),
        final(state).selected@ == Set::<usize>::empty(),
        final(state).anchor is None,
        final(state).pending_select == old(state).pending_select,
        same_but_listing(*final(state), *old(state)),
        r@.len() == final(state).entries@.len(),
        forall|i: int|
            0 <= i < r@.len() ==> (#[trigger] r@[i])@ == row_of(
                final(state).entries@[i]@,
                *dirs,
                path_views(old(state).clipboard.paths@),
                old(state).clipboard.cut,
                path_views(carried@),
            ),
{
    state.current = Some(target);
    state.all_entries = listed;
    rebuild_rows(state, show_hidden, key, order, dirs, carried)
}

/// The position of the first entry with a path, or the number of entries.
pub open spec fn entry_at(es: Seq<EntryView>, p: Seq<u8>) -> int
    decreases es.len(),
{
    if es.len() == 0 || components(es[0].path) == components(p) {
        0
    } else {
        1 + entry_at(es.skip(1), p)
    }
}

fn position_of(entries: &Vec<FileEntry>, p: &UnixPath) -> (r: usize)
    ensures
        r == entry_at(entry_views(entries@), p@),
        r <= entries@.len(),
{
    let ghost es = entry_views(entries@);
    let mut i: usize = 0;
    assert(es.skip(0) =~= es);
    while i < entries.len()
        invariant
            i <= entries@.len(),
            es == entry_views(entries@),
            entry_at(es, p@) == i + entry_at(es.skip(i as int), p@),
        decreases entries@.len() - i,
    {
        assert(es.skip(i as int)[0] == entries@[i as int]@);
        if entries[i].path.same(p) {
            return i;
        }
        assert(es.skip(i as int).skip(1) =~= es.skip(i + 1));
        i += 1;
    }
    i
}

/// Selects the entry that was to be selected once it is listed. The request is
/// forgotten whether or not the entry is there. Returns its row.
pub fn apply_pending_select(state: &mut AppState) -> (r: Option<usize>)
    ensures
        final(state).pending_select is None,
        ({
            let es = entry_views(old(state).entries@);
            match old(state).pending_select {
                Some(p) => if entry_at(es, p@) < es.len() {
                    &&& r matches Some(i) && i == entry_at(es, p@)
                    &&& final(state).selected@ == Set::empty().insert(r->0)
                    &&& final(state).anchor == r
                } else {
                    r is None && final(state).selected == old(state).selected
                        && final(state).anchor == old(state).anchor
                },
                None => r is None && final(state).selected == old(state).selected
                    && final(state).anchor == old(state).anchor,
            }
        }),
        final(state).entries == old(state).entries,
        final(state).all_entries == old(state).all_entries,
        final(state).current == old(state).current,
        same_but_listing(*final(state), *old(state)),
{
    let mut want: Option<UnixPath> = None;
    core::mem::swap(&mut want, &mut state.pending_select);
    match want {
        Some(p) => {
            let i: usize = position_of(&state.entries, &p);
            if i < state.entries.len() {
                state.selected.clear();
                state.selected.insert(i);
                state.anchor = Some(i);
                Some(i)
            } else {
                None
            }
        },
        None => None,
    }
}

/// Fills the pane that is not active with the listing of a place. Returns its
/// rows, or nothing if there is no such pane any more.
pub fn load_inactive_pane(
    state: &mut AppState,
    target: Location,
    listed: Vec<FileEntry>,
    show_hidden: bool,
    key: SortKey,
    order: SortOrder,
    dirs: &UserDirs,
) -> (r: Option<Vec<FileRowData>>)
    ensures
        r is Some == (old(state).inactive_pane is Some),
        r is None ==> *final(state) == *old(state),
        old(state).inactive_pane matches Some(p) ==> {
            &&& final(state).inactive_pane matches Some(q)
            &&& {
                let q = final(state).inactive_pane->0;
                &&& q.current == Some(target)
                &&& q.all_entries == listed
                &&& exists|rows: Seq<usize>|
                    is_view(
                        entry_views(listed@),
                        entry_views(q.entries@),
                        show_hidden,
                        key,
                        order,
                        rows,
                    )
                &&& q.selected@ == Set::<usize>::empty()
                &&& q.anchor is None
                &&& q.rows_model == p.rows_model
                &&& q.back_stack == p.back_stack
                &&& q.forward_stack == p.forward_stack
                &&& q.tabs == p.tabs
                &&& q.active_tab_idx == p.active_tab_idx
                &&& r->0@.len() == q.entries@.len()
                &&& forall|i: int|
                    0 <= i < r->0@.len() ==> (#[trigger] r->0@[i])@ == row_of(
                        q.entries@[i]@,
                        *dirs,
                        path_views(old(state).clipboard.paths@),
                        old(state).clipboard.cut,
                        Seq::empty(),
                    )
            }
        },
        final(state)@.active == old(state)@.active,
        final(state).active_is_right == old(state).active_is_right,
        final(state).next_model == old(state).next_model,
        crate::state::same_shared(*final(state), *old(state)),
{
    let mut pane: Option<crate::state::PaneState> = None;
    core::mem::swap(&mut pane, &mut state.inactive_pane);
    match pane {
        None => None,
        Some(p) => {
            let none: Vec<UnixPath> = Vec::new();
            assert(path_views(none@) =~= Seq::empty());
            let entries = view_of(&listed, show_hidden, key, order);
            let rows = rows_of(&entries, dirs, &state.clipboard.paths, state.clipboard.cut, &none);
            let mut q = p;
            q.current = Some(target);
            q.entries = entries;
            q.all_entries = listed;
            q.selected.clear();
            q.anchor = None;
            state.inactive_pane = Some(q);
            Some(rows)
        },
    }
}

/// The place to list anew in the pane that is not active: a local one.
pub fn refresh_inactive_pane(state: &AppState) -> (r: Option<Location>)
    ensures
        opt_place(r) == match state@.other {
            Some(p) => match p.live.current {
                Some(Place::Local(b)) => Some(Place::Local(b)),
                _ => None,
            },
            None => None,
        },
{
    match &state.inactive_pane {
        Some(p) => {
            match &p.current {
                Some(Location::Local(b)) => Some(Location::Local(b.clone())),
                _ => None,
            }
        },
        None => None,
    }
}

// ---------------------------------------------------------------------------
// Removing rows
// ---------------------------------------------------------------------------

/// The entries whose paths are not gone.
pub open spec fn still_there(gone: Seq<Seq<u8>>) -> spec_fn(EntryView) -> bool {
    |e: EntryView| !has_path(gone, e.path)
}

/// The rows below `n` whose entries are gone, the last one first.
pub open spec fn gone_rows(es: Seq<EntryView>, gone: Seq<Seq<u8>>, n: int) -> Seq<usize>
    decreases n,
{
    if n <= 0 {
        Seq::empty()
    } else if has_path(gone, es[n - 1].path) {
        seq![(n - 1) as usize] + gone_rows(es, gone, n - 1)
    } else {
        gone_rows(es, gone, n - 1)
    }
}

fn retain_present(entries: &Vec<FileEntry>, gone: &Vec<UnixPath>) -> (r: Vec<FileEntry>)
    ensures
        entry_views(r@) == entry_views(entries@).filter(still_there(path_views(gone@))),
{
    let ghost es = entry_views(entries@);
    let ghost keep = still_there(path_views(gone@));
    let mut r: Vec<FileEntry> = Vec::new();
    let mut i: usize = 0;
    assert(es.take(0).filter(keep) =~= Seq::empty()) by {
        reveal(Seq::filter);
    }
    assert(entry_views(r@) =~= es.take(0).filter(keep));
    while i < entries.len()
        invariant
            i <= entries@.len(),
            es == entry_views(entries@),
            keep == still_there(path_views(gone@)),
            entry_views(r@) == es.take(i as int).filter(keep),
        decreases entries@.len() - i,
    {
        proof {
            assert(es[i as int] == entries@[i as int]@);
            assert(es.take(i + 1) =~= es.take(i as int).push(es[i as int]));
            es.take(i as int).lemma_filter_push(es[i as int], keep);
        }
        if !contains_path(gone, &entries[i].path) {
            let ghost before = r@;
            r.push(entries[i].clone());
            assert(entry_views(r@) =~= entry_views(before).push(es[i as int]));
        }
        i += 1;
    }
    assert(es.take(i as int) =~= es);
    r
}

fn rows_gone(entries: &Vec<FileEntry>, gone: &Vec<UnixPath>) -> (r: Vec<usize>)
    ensures
        r@ == gone_rows(entry_views(entries@), path_views(gone@), entries@.len() as int),
{
    let ghost es = entry_views(entries@);
    let ghost ps = path_views(gone@);
    let mut r: Vec<usize> = Vec::new();
    let mut i: usize = entries.len();
    while i > 0
        invariant
            i <= entries@.len(),
            es == entry_views(entries@),
            ps == path_views(gone@),
            r@ + gone_rows(es, ps, i as int) == gone_rows(es, ps, entries@.len() as int),
        decreases i,
    {
        let ghost before = r@;
        assert(es[i - 1] == entries@[i - 1]@);
        if contains_path(gone, &entries[i - 1].path) {
            r.push(i - 1);
            assert(r@ + gone_rows(es, ps, i - 1) =~= before + (seq![(i - 1) as usize] + gone_rows(
                es,
                ps,
                i - 1,
            )));
        }
        i -= 1;
    }
    assert(r@ + gone_rows(es, ps, 0) =~= r@);
    r
}

/// The paths among the first `n` at which nothing is left.
pub open spec fn gone_among(removed: Seq<Seq<u8>>, exists_now: Seq<bool>, n: int) -> Seq<Seq<u8>>
    decreases n,
{
    if n <= 0 {
        Seq::empty()
    } else if exists_now[n - 1] {
        gone_among(removed, exists_now, n - 1)
    } else {
        gone_among(removed, exists_now, n - 1).push(removed[n - 1])
    }
}

fn gone_paths(removed: &Vec<UnixPath>, exists_now: &Vec<bool>) -> (r: Vec<UnixPath>)
    requires
        removed@.len() == exists_now@.len(),
    ensures
        path_views(r@) == gone_among(path_views(removed@), exists_now@, removed@.len() as int),
{
    let ghost ps = path_views(removed@);
    let mut r: Vec<UnixPath> = Vec::new();
    let mut i: usize = 0;
    assert(path_views(r@) =~= gone_among(ps, exists_now@, 0));
    while i < removed.len()
        invariant
            i <= removed@.len(),
            removed@.len() == exists_now@.len(),
            ps == path_views(removed@),
            path_views(r@) == gone_among(ps, exists_now@, i as int),
        decreases removed@.len() - i,
    {
        assert(ps[i as int] == removed@[i as int]@);
        if !exists_now[i] {
            let ghost before = r@;
            r.push(removed[i].clone());
            assert(path_views(r@) =~= path_views(before).push(ps[i as int]));
        }
        i += 1;
    }
    r
}

/// Removes what is gone from the listing without listing the place anew: of the
/// paths that were to be removed, those that are there no more. With something
/// removed, nothing is selected any more. Returns the removed rows, the last
/// one first.
pub fn remove_paths_from_view(
    state: &mut AppState,
    removed: &Vec<UnixPath>,
    exists_now: &Vec<bool>,
) -> (r: Vec<usize>)
    requires
        removed@.len() == exists_now@.len(),
    ensures
        ({
            let gone = gone_among(path_views(removed@), exists_now@, removed@.len() as int);
            &&& r@ == gone_rows(
                entry_views(old(state).entries@),
                gone,
                old(state).entries@.len() as int,
            )
            &&& r@.len() == 0 ==> *final(state) == *old(state)
            &&& r@.len() > 0 ==> {
                let keep = still_there(gone);
                &&& entry_views(final(state).entries@) == entry_views(
                    old(state).entries@,
                ).filter(keep)
                &&& entry_views(final(state).all_entries@) == entry_views(
                    old(state).all_entries@,
                ).filter(keep)
                &&& final(state).selected@ == Set::<usize>::empty()
                &&& final(state).anchor is None
            }
        }),
        *final(state) == (AppState {
            entries: final(state).entries,
            all_entries: final(state).all_entries,
            selected: final(state).selected,
            anchor: final(state).anchor,
            ..*old(state)
        }),
        same_but_listing(*final(state), *old(state)),
{
    let gone = gone_paths(removed, exists_now);
    let rows = rows_gone(&state.entries, &gone);
    if rows.len() == 0 {
        return rows;
    }
    state.entries = retain_present(&state.entries, &gone);
    state.all_entries = retain_present(&state.all_entries, &gone);
    state.selected.clear();
    state.anchor = None;
    rows
}

/// Where nothing could be removed, the listing stays as it is.
pub proof fn a_failed_removal_leaves_the_rows(
    es: Seq<EntryView>,
    removed: Seq<Seq<u8>>,
    exists_now: Seq<bool>,
    n: int,
    m: int,
)
    requires
        0 <= n <= removed.len() == exists_now.len(),
        0 <= m <= es.len(),
        forall|i: int| 0 <= i < exists_now.len() ==> #[trigger] exists_now[i],
    ensures
        gone_among(removed, exists_now, n).len() == 0,
        gone_rows(es, gone_among(removed, exists_now, n), m).len() == 0,
    decreases n, m,
{
    if n > 0 {
        a_failed_removal_leaves_the_rows(es, removed, exists_now, n - 1, m);
    } else if m > 0 {
        a_failed_removal_leaves_the_rows(es, removed, exists_now, n, m - 1);
    }
}

// ---------------------------------------------------------------------------
// Opening rows
// ---------------------------------------------------------------------------

/// Whether the search results are what the keys and menus act on.
pub fn search_focused(state: &AppState, search_active: bool) -> (r: bool)
    ensures
        r == (search_active && state.search_on_right == state.active_is_right),
{
    search_active && state.search_on_right == state.active_is_right
}

/// What opening a row or the selection comes to.
#[derive(Debug)]
pub enum Activation {
    Nothing,
    Navigate(UnixPath),
    Open(UnixPath),
    /// Open all that is selected.
    OpenAll,
}

/// What opening comes to, in mathematical terms.
pub enum ActivationView {
    Nothing,
    Navigate(Seq<u8>),
    Open(Seq<u8>),
    OpenAll,
}

impl View for Activation {
    type V = ActivationView;

    open spec fn view(&self) -> ActivationView {
        match self {
            Activation::Nothing => ActivationView::Nothing,
            Activation::Navigate(p) => ActivationView::Navigate(p@),
            Activation::Open(p) => ActivationView::Open(p@),
            Activation::OpenAll => ActivationView::OpenAll,
        }
    }
}

/// What opening a file or folder comes to.
pub open spec fn activated(p: Seq<u8>, is_dir: bool) -> ActivationView {
    if is_dir {
        ActivationView::Navigate(p)
    } else {
        ActivationView::Open(p)
    }
}

fn activate(p: &UnixPath, is_dir: bool) -> (r: Activation)
    ensures
        r@ == activated(p@, is_dir),
{
    if is_dir {
        Activation::Navigate(p.clone())
    } else {
        Activation::Open(p.clone())
    }
}

/// What opening a row comes to. Among search results, `search_dirs` says which
/// rows are folders.
pub fn row_activated(state: &AppState, in_search: bool, search_dirs: &Vec<bool>, idx: usize) -> (r:
    Activation)
    ensures
        r@ == if in_search {
            if idx < state.search_hit_paths@.len() {
                activated(
                    state.search_hit_paths@[idx as int]@,
                    idx < search_dirs@.len() && search_dirs@[idx as int],
                )
            } else {
                ActivationView::Nothing
            }
        } else if idx < state.entries@.len() {
            activated(
                state.entries@[idx as int].path@,
                state.entries@[idx as int].file_type == FileType::Directory,
            )
        } else {
            ActivationView::Nothing
        },
{
    if in_search {
        if idx < state.search_hit_paths.len() {
            let is_dir: bool = idx < search_dirs.len() && search_dirs[idx];
            activate(&state.search_hit_paths[idx], is_dir)
        } else {
            Activation::Nothing
        }
    } else if idx < state.entries.len() {
        activate(&state.entries[idx].path, state.entries[idx].is_dir())
    } else {
        Activation::Nothing
    }
}

/// The selected entries below `n`, in order.
pub open spec fn chosen_upto(es: Seq<EntryView>, sel: Set<usize>, n: int) -> Seq<EntryView>
    decreases n,
{
    if n <= 0 {
        Seq::empty()
    } else if sel.contains((n - 1) as usize) {
        chosen_upto(es, sel, n - 1).push(es[n - 1])
    } else {
        chosen_upto(es, sel, n - 1)
    }
}

/// The selected entries of a listing, in order.
pub fn selected_entries(entries: &Vec<FileEntry>, selected: &HashSet<usize>) -> (r: Vec<FileEntry>)
    ensures
        entry_views(r@) == chosen_upto(entry_views(entries@), selected@, entries@.len() as int),
{
    let ghost es = entry_views(entries@);
    let mut r: Vec<FileEntry> = Vec::new();
    let mut i: usize = 0;
    assert(entry_views(r@) =~= chosen_upto(es, selected@, 0));
    while i < entries.len()
        invariant
            i <= entries@.len(),
            es == entry_views(entries@),
            entry_views(r@) == chosen_upto(es, selected@, i as int),
        decreases entries@.len() - i,
    {
        assert(es[i as int] == entries@[i as int]@);
        if selected.contains(&i) {
            let ghost before = r@;
            r.push(entries[i].clone());
            assert(entry_views(r@) =~= entry_views(before).push(es[i as int]));
        }
        i += 1;
    }
    r
}

/// What opening the selection of a listing comes to.
pub open spec fn selection_activated(chosen: Seq<EntryView>) -> ActivationView {
    if chosen.len() == 0 {
        ActivationView::Nothing
    } else if chosen.len() == 1 {
        activated(chosen[0].path, chosen[0].file_type == FileType::Directory)
    } else {
        ActivationView::OpenAll
    }
}

/// What opening the selection of a listing comes to.
pub fn activate_selection(state: &AppState) -> (r: Activation)
    ensures
        r@ == selection_activated(
            chosen_upto(
                entry_views(state.entries@),
                state.selected@,
                state.entries@.len() as int,
            ),
        ),
{
    let chosen = selected_entries(&state.entries, &state.selected);
    let ghost cs = entry_views(chosen@);
    if chosen.len() == 0 {
        Activation::Nothing
    } else if chosen.len() == 1 {
        assert(cs[0] == chosen@[0]@);
        activate(&chosen[0].path, chosen[0].is_dir())
    } else {
        Activation::OpenAll
    }
}

/// The rows below `n` that are selected.
pub open spec fn set_rows(flags: Seq<bool>, n: int) -> Seq<usize>
    decreases n,
{
    if n <= 0 {
        Seq::empty()
    } else if flags[n - 1] {
        set_rows(flags, n - 1).push((n - 1) as usize)
    } else {
        set_rows(flags, n - 1)
    }
}

/// The rows that are selected.
pub fn selected_rows(flags: &Vec<bool>) -> (r: Vec<usize>)
    ensures
        r@ == set_rows(flags@, flags@.len() as int),
        forall|k: int| 0 <= k < r@.len() ==> (#[trigger] r@[k]) < flags@.len(),
{
    let mut r: Vec<usize> = Vec::new();
    let mut i: usize = 0;
    while i < flags.len()
        invariant
            i <= flags@.len(),
            r@ == set_rows(flags@, i as int),
            forall|k: int| 0 <= k < r@.len() ==> (#[trigger] r@[k]) < i,
        decreases flags@.len() - i,
    {
        if flags[i] {
            r.push(i);
        }
        i += 1;
    }
    r
}

/// What opening the selection among search results comes to.
pub fn activate_search_selection(state: &AppState, selected: &Vec<bool>, dirs: &Vec<bool>) -> (r:
    Activation)
    ensures
        ({
            let rows = set_rows(selected@, selected@.len() as int);
            r@ == if rows.len() == 0 {
                ActivationView::Nothing
            } else if rows.len() > 1 {
                ActivationView::OpenAll
            } else if rows[0] < state.search_hit_paths@.len() {
                activated(
                    state.search_hit_paths@[rows[0] as int]@,
                    rows[0] < dirs@.len() && dirs@[rows[0] as int],
                )
            } else {
                ActivationView::Nothing
            }
        }),
{
    let rows = selected_rows(selected);
    if rows.len() == 0 {
        Activation::Nothing
    } else if rows.len() > 1 {
        Activation::OpenAll
    } else {
        row_activated(state, true, dirs, rows[0])
    }
}

/// Goes to the folder of the first selected search result, to select it there.
/// Returns the folder.
pub fn open_containing_folder(state: &mut AppState, selected: &Vec<bool>) -> (r: Option<UnixPath>)
    ensures
        ({
            let rows = set_rows(selected@, selected@.len() as int);
            let hits = old(state).search_hit_paths@;
            if rows.len() > 0 && rows[0] < hits.len() && parent(hits[rows[0] as int]@) is Some {
                &&& opt_path(r) == parent(hits[rows[0] as int]@)
                &&& opt_path(final(state).pending_select) == Some(hits[rows[0] as int]@)
            } else {
                r is None && final(state).pending_select == old(state).pending_select
            }
        }),
        final(state)@ == old(state)@,
        final(state).current == old(state).current,
        same_but_listing(*final(state), *old(state)),
{
    let rows = selected_rows(selected);
    if rows.len() == 0 {
        return None;
    }
    let i: usize = rows[0];
    if i >= state.search_hit_paths.len() {
        return None;
    }
    let hit = state.search_hit_paths[i].clone();
    match hit.parent() {
        Some(dir) => {
            state.pending_select = Some(hit);
            Some(dir)
        },
        None => None,
    }
}

// ---------------------------------------------------------------------------
// What the window says of a place
// ---------------------------------------------------------------------------

/// A clickable part of the path bar.
#[derive(Debug)]
pub struct PathSegment {
    pub label: String,
    pub full_path: String,
}

/// The views of a list of parts.
pub open spec fn segment_views(v: Seq<PathSegment>) -> Seq<(Seq<char>, Seq<char>)> {
    v.map_values(|s: PathSegment| (s.label@, s.full_path@))
}

/// The path that the parts up to component `n` lead to.
pub open spec fn crumb_path(cs: Seq<Seq<u8>>, n: int) -> Seq<u8>
    decreases n,
{
    if n <= 1 {
        encode_utf8("/"@)
    } else {
        joined(crumb_path(cs, n - 1), encode_utf8(lossy(cs[n - 1])))
    }
}

/// The parts of the path bar for the first `n` components: the root, and one
/// part for each component after the first.
pub open spec fn crumbs(cs: Seq<Seq<u8>>, n: int) -> Seq<(Seq<char>, Seq<char>)>
    decreases n,
{
    if n <= 1 {
        seq![("/"@, "/"@)]
    } else {
        crumbs(cs, n - 1).push((lossy(cs[n - 1]), lossy(crumb_path(cs, n))))
    }
}

/// The parts of the path bar for a place.
pub open spec fn place_crumbs(p: Place) -> Seq<(Seq<char>, Seq<char>)> {
    match p {
        Place::Local(b) => crumbs(components(b), components(b).len() as int),
        Place::Trash => seq![("Trash"@, "trash:///"@)],
    }
}

/// The parts of the path bar for a place.
pub fn push_path_segments(target: &Location) -> (r: Vec<PathSegment>)
    ensures
        segment_views(r@) == place_crumbs(target@),
{
    let mut out: Vec<PathSegment> = Vec::new();
    match target {
        Location::Local(p) => {
            out.push(PathSegment { label: "/".to_owned(), full_path: "/".to_owned() });
            let cs = p.components();
            let ghost spec_cs = components(p@);
            let mut acc = UnixPath::new("/");
            let mut i: usize = 1;
            assert(segment_views(out@) =~= crumbs(spec_cs, 1));
            while i < cs.len()
                invariant
                    1 <= i,
                    i <= cs@.len() || i == 1,
                    spec_cs == crate::unix_path::byte_views(cs@),
                    acc@ == crumb_path(spec_cs, i as int),
                    segment_views(out@) == crumbs(spec_cs, i as int),
                decreases cs@.len() - i,
            {
                assert(spec_cs[i as int] == cs@[i as int]@);
                let name = lossy_text(&cs[i]);
                acc = acc.join(name.as_str());
                let ghost before = out@;
                let seg = PathSegment { label: name, full_path: acc.display() };
                out.push(seg);
                assert(segment_views(out@) =~= segment_views(before).push(
                    (seg.label@, seg.full_path@),
                ));
                i += 1;
            }
            assert(crumbs(spec_cs, i as int) == crumbs(spec_cs, spec_cs.len() as int));
        },
        Location::Trash => {
            out.push(
                PathSegment { label: "Trash".to_owned(), full_path: "trash:///".to_owned() },
            );
            assert(segment_views(out@) =~= place_crumbs(target@));
        },
    }
    out
}

/// How many failures a summary lists.
pub const MAX_SHOWN: usize = 12;

/// The lines of the first `n` failures.
pub open spec fn error_lines(errors: Seq<CopyError>, n: int) -> Seq<char>
    decreases n,
{
    if n <= 0 {
        Seq::empty()
    } else {
        error_lines(errors, n - 1) + (lossy(errors[n - 1].path@) + "\n    "@
            + errors[n - 1].message@ + "\n"@)
    }
}

/// The title and text of a summary of failures.
pub fn show_operation_error(op: Op, errors: &Vec<CopyError>) -> (r: (String, String))
    ensures
        r.0@ == decimal(errors@.len()) + " item(s) could not be "@ + match op {
            Op::Copy => "copied"@,
            Op::Move => "moved"@,
        },
        r.1@ == if errors@.len() <= MAX_SHOWN {
            error_lines(errors@, errors@.len() as int)
        } else {
            error_lines(errors@, MAX_SHOWN as int) + ("… and "@ + decimal(
                (errors@.len() - MAX_SHOWN) as nat,
            ) + " more"@)
        },
{
    let n: usize = errors.len();
    let mut title = decimal_text(n as u64);
    title.append(" item(s) could not be ");
    match op {
        Op::Copy => {
            title.append("copied");
        },
        Op::Move => {
            title.append("moved");
        },
    }
    let mut body = String::new();
    let mut i: usize = 0;
    while i < n && i < MAX_SHOWN
        invariant
            n == errors@.len(),
            i <= n,
            i <= MAX_SHOWN,
            body@ == error_lines(errors@, i as int),
        decreases n - i,
    {
        let mut line = errors[i].path.display();
        line.append("\n    ");
        line.append(errors[i].message.as_str());
        line.append("\n");
        body.append(line.as_str());
        i += 1;
    }
    if n > MAX_SHOWN {
        let mut rest: String = "… and ".to_owned();
        rest.append(decimal_text((n - MAX_SHOWN) as u64).as_str());
        rest.append(" more");
        body.append(rest.as_str());
    }
    (title, body)
}

/// How much space is free, where that is known.
pub fn disk_free_text(space: Option<DiskSpace>) -> (r: String)
    ensures
        r@ == match space {
            Some(d) => if d.total > 0 {
                size_text(d.free as nat) + " free of "@ + size_text(d.total as nat)
            } else {
                Seq::<char>::empty()
            },
            None => Seq::<char>::empty(),
        },
{
    match space {
        Some(d) => {
            if d.total > 0 {
                let mut s = human_size(d.free);
                s.append(" free of ");
                s.append(human_size(d.total).as_str());
                s
            } else {
                String::new()
            }
        },
        None => String::new(),
    }
}

} // verus!
