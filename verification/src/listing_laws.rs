//! What a listing shows of the entries of a folder, and what acting on it leads
//! to.
use crate::calendar::{mtime_text, wrap_i32};
use crate::format_util::{kind_of, size_text};
use crate::icon_map::entry_icon;
use crate::listing::{
    activated, chosen_upto, entry_at, gone_among, gone_rows, has_path, is_view, of_kind_upto,
    row_of, same_but_listing, selection_activated, set_rows, still_there, thumbs_upto,
    visible_upto, ActivationView,
};
use crate::num_text::{all_decimal, is_decimal};
use crate::picking::{
    exactly_those, lemma_picked, lemma_picked_none, picked_items_are_those_kept, picks,
};
use crate::sort_laws::{
    row_name, same_group, sorting_by_kind_orders_the_types, sorting_by_name_orders_the_names,
    sorting_by_size_orders_the_sizes, sorting_by_time_orders_the_times, stands_before,
};
use crate::sort_select::{
    clash, comparable, lemma_short_runs_never_meet, lexical, natural_order, sortable, sorted_from,
    sorting_keeps_the_rows, SortKey, SortOrder,
};
use crate::state::AppState;
use crate::types::{EntryView, FileType};
use crate::unix_path::components;
use crate::user_dirs::UserDirs;
use core::cmp::Ordering;
use vstd::prelude::*;

verus! {

/// The entries that are not hidden have a row each, in their order; the hidden
/// ones have one where they are to be shown.
pub proof fn visible_entries_have_a_row(es: Seq<EntryView>, show_hidden: bool, n: int)
    requires
        0 <= n <= es.len() <= usize::MAX,
    ensures
        exactly_those(
            visible_upto(es, show_hidden, n),
            n,
            |i: int| es[i].is_hidden ==> show_hidden,
            |i: int| i as usize,
        ),
    decreases n,
{
    let keep = |i: int| es[i].is_hidden ==> show_hidden;
    let item = |i: int| i as usize;
    if n > 0 {
        visible_entries_have_a_row(es, show_hidden, n - 1);
        lemma_picked(visible_upto(es, show_hidden, n - 1), n - 1, keep, item);
    } else {
        lemma_picked_none(keep, item);
    }
}

/// Rows of folders, or of the rest, are taken over in their order.
pub proof fn rows_of_a_kind_are_taken_over(
    es: Seq<EntryView>,
    rows: Seq<usize>,
    dirs: bool,
    n: int,
)
    requires
        0 <= n <= rows.len(),
    ensures
        exactly_those(
            of_kind_upto(es, rows, dirs, n),
            n,
            |i: int| (es[rows[i] as int].file_type == FileType::Directory) == dirs,
            |i: int| rows[i],
        ),
    decreases n,
{
    let keep = |i: int| (es[rows[i] as int].file_type == FileType::Directory) == dirs;
    let item = |i: int| rows[i];
    if n > 0 {
        rows_of_a_kind_are_taken_over(es, rows, dirs, n - 1);
        lemma_picked(of_kind_upto(es, rows, dirs, n - 1), n - 1, keep, item);
    } else {
        lemma_picked_none(keep, item);
    }
}

/// A listing shows every entry that is not hidden, and the hidden ones where they
/// are to be shown.
pub proof fn nothing_visible_is_left_out(
    all: Seq<EntryView>,
    shown: Seq<EntryView>,
    show_hidden: bool,
    key: SortKey,
    order: SortOrder,
    rows: Seq<usize>,
    i: int,
)
    requires
        is_view(all, shown, show_hidden, key, order, rows),
        0 <= i < all.len() <= usize::MAX,
        show_hidden || !all[i].is_hidden,
    ensures
        shown.contains(all[i]),
{
    let n = all.len() as int;
    let visible = visible_upto(all, show_hidden, n);
    let keep = |i: int| all[i].is_hidden ==> show_hidden;
    let item = |i: int| i as usize;
    visible_entries_have_a_row(all, show_hidden, n);
    picked_items_are_those_kept(visible, n, keep, item, i as usize);
    assert(keep(i) && item(i) == i as usize);
    assert(visible.contains(i as usize));
    if sortable(all, visible, key) {
        let moved = choose|moved: Seq<usize>| sorted_from(all, visible, rows, key, order, moved);
        lemma_short(all, show_hidden, n);
        sorting_keeps_the_rows(all, visible, rows, key, order, moved);
        assert(visible.to_set().contains(i as usize));
        assert(rows.to_set().contains(i as usize));
    } else {
        let dirs = all[i].file_type == FileType::Directory;
        let j = choose|j: int| 0 <= j < visible.len() && visible[j] == i as usize;
        let part = of_kind_upto(all, visible, dirs, visible.len() as int);
        let keep = |i: int| (all[visible[i] as int].file_type == FileType::Directory) == dirs;
        let item = |i: int| visible[i];
        rows_of_a_kind_are_taken_over(all, visible, dirs, visible.len() as int);
        picked_items_are_those_kept(part, visible.len() as int, keep, item, i as usize);
        assert(keep(j) && item(j) == i as usize);
        let k = choose|k: int| 0 <= k < part.len() && part[k] == i as usize;
        let first = of_kind_upto(all, visible, true, visible.len() as int);
        if dirs {
            assert(rows[k] == i as usize);
        } else {
            assert(rows[first.len() + k] == i as usize);
        }
    }
    let k = choose|k: int| 0 <= k < rows.len() && rows[k] == i as usize;
    assert(shown[k] == all[i]);
}

proof fn lemma_short(es: Seq<EntryView>, show_hidden: bool, n: int)
    requires
        0 <= n,
    ensures
        visible_upto(es, show_hidden, n).len() <= n,
    decreases n,
{
    if n > 0 {
        lemma_short(es, show_hidden, n - 1);
    }
}

proof fn lemma_rows_exist(all: Seq<EntryView>, show_hidden: bool)
    requires
        all.len() <= usize::MAX,
    ensures
        ({
            let visible = visible_upto(all, show_hidden, all.len() as int);
            forall|k: int| 0 <= k < visible.len() ==> (#[trigger] visible[k]) < all.len()
        }),
{
    let n = all.len() as int;
    let visible = visible_upto(all, show_hidden, n);
    let keep = |i: int| all[i].is_hidden ==> show_hidden;
    let item = |i: int| i as usize;
    visible_entries_have_a_row(all, show_hidden, n);
    let at = choose|at: Seq<int>| picks(visible, n, keep, item, at);
    assert forall|k: int| 0 <= k < visible.len() implies (#[trigger] visible[k]) < all.len() by {
        assert(visible[k] == item(at[k]));
    }
}

/// A listing by modification time runs from the earliest time to the latest, or
/// the other way round, folders and the rest each for themselves.
pub proof fn a_listing_by_time_is_in_order(
    all: Seq<EntryView>,
    shown: Seq<EntryView>,
    show_hidden: bool,
    order: SortOrder,
    rows: Seq<usize>,
    i: int,
    j: int,
)
    requires
        is_view(all, shown, show_hidden, SortKey::Mtime, order, rows),
        all.len() <= usize::MAX,
        0 <= i < j < shown.len(),
        (shown[i].file_type == FileType::Directory) == (shown[j].file_type
            == FileType::Directory),
    ensures
        order == SortOrder::Ascending ==> shown[i].mtime.secs < shown[j].mtime.secs || (
        shown[i].mtime.secs == shown[j].mtime.secs && shown[i].mtime.nanos
            <= shown[j].mtime.nanos),
        order == SortOrder::Descending ==> shown[i].mtime.secs > shown[j].mtime.secs || (
        shown[i].mtime.secs == shown[j].mtime.secs && shown[i].mtime.nanos
            >= shown[j].mtime.nanos),
{
    let visible = visible_upto(all, show_hidden, all.len() as int);
    lemma_rows_exist(all, show_hidden);
    assert(sortable(all, visible, SortKey::Mtime));
    let moved = choose|moved: Seq<usize>|
        sorted_from(all, visible, rows, SortKey::Mtime, order, moved);
    sorting_by_time_orders_the_times(all, visible, rows, order, moved, i, j);
}

/// A listing by size runs from the smallest entry to the largest, or the other
/// way round, folders and the rest each for themselves.
pub proof fn a_listing_by_size_is_in_order(
    all: Seq<EntryView>,
    shown: Seq<EntryView>,
    show_hidden: bool,
    order: SortOrder,
    rows: Seq<usize>,
    i: int,
    j: int,
)
    requires
        is_view(all, shown, show_hidden, SortKey::Size, order, rows),
        all.len() <= usize::MAX,
        0 <= i < j < shown.len(),
        (shown[i].file_type == FileType::Directory) == (shown[j].file_type
            == FileType::Directory),
    ensures
        order == SortOrder::Ascending ==> shown[i].size <= shown[j].size,
        order == SortOrder::Descending ==> shown[i].size >= shown[j].size,
{
    let visible = visible_upto(all, show_hidden, all.len() as int);
    lemma_rows_exist(all, show_hidden);
    assert(sortable(all, visible, SortKey::Size));
    let moved = choose|moved: Seq<usize>|
        sorted_from(all, visible, rows, SortKey::Size, order, moved);
    sorting_by_size_orders_the_sizes(all, visible, rows, order, moved, i, j);
}

/// A listing by kind is in the order of the MIME types, those without one first,
/// or the other way round, folders and the rest each for themselves.
pub proof fn a_listing_by_kind_is_in_order(
    all: Seq<EntryView>,
    shown: Seq<EntryView>,
    show_hidden: bool,
    order: SortOrder,
    rows: Seq<usize>,
    i: int,
    j: int,
)
    requires
        is_view(all, shown, show_hidden, SortKey::Kind, order, rows),
        all.len() <= usize::MAX,
        0 <= i < j < shown.len(),
        (shown[i].file_type == FileType::Directory) == (shown[j].file_type
            == FileType::Directory),
    ensures
        ({
            let (a, b) = if order == SortOrder::Ascending {
                (shown[i].mime, shown[j].mime)
            } else {
                (shown[j].mime, shown[i].mime)
            };
            &&& b is None ==> a is None
            &&& a is Some && b is Some && a->0 != b->0 ==> stands_before(a->0, b->0)
        }),
{
    let visible = visible_upto(all, show_hidden, all.len() as int);
    lemma_rows_exist(all, show_hidden);
    assert(sortable(all, visible, SortKey::Kind));
    let moved = choose|moved: Seq<usize>|
        sorted_from(all, visible, rows, SortKey::Kind, order, moved);
    sorting_by_kind_orders_the_types(all, visible, rows, order, moved, i, j);
}

/// A row shows its entry: its name, whether it is a folder, a link or hidden. It
/// is marked as cut where its path was cut, and has a thumbnail where one was
/// there before.
pub proof fn a_row_shows_its_entry(
    e: EntryView,
    dirs: UserDirs,
    clipboard: Seq<Seq<u8>>,
    is_cut: bool,
    carried: Seq<Seq<u8>>,
)
    ensures
        ({
            let r = row_of(e, dirs, clipboard, is_cut, carried);
            &&& r.display_name == e.display_name
            &&& r.is_dir <==> e.file_type is Directory
            &&& r.is_symlink == e.is_symlink
            &&& r.is_hidden == e.is_hidden
            &&& !r.selected
            &&& r.is_cut <==> is_cut && exists|i: int|
                0 <= i < clipboard.len() && components(#[trigger] clipboard[i]) == components(
                    e.path,
                )
            &&& r.has_thumbnail <==> exists|i: int|
                0 <= i < carried.len() && components(#[trigger] carried[i]) == components(e.path)
        }),
{
}

/// The thumbnails that are kept are those of the rows that had one.
pub proof fn thumbnails_are_kept(es: Seq<EntryView>, flags: Seq<bool>, n: int)
    requires
        0 <= n <= es.len(),
    ensures
        exactly_those(
            thumbs_upto(es, flags, n),
            n,
            |i: int| i < flags.len() && flags[i],
            |i: int| es[i].path,
        ),
    decreases n,
{
    let keep = |i: int| i < flags.len() && flags[i];
    let item = |i: int| es[i].path;
    if n > 0 {
        thumbnails_are_kept(es, flags, n - 1);
        lemma_picked(thumbs_upto(es, flags, n - 1), n - 1, keep, item);
    } else {
        lemma_picked_none(keep, item);
    }
}

/// The entry that is selected for a path is the first one with that path.
pub proof fn the_first_entry_with_a_path_is_found(es: Seq<EntryView>, p: Seq<u8>)
    ensures
        0 <= entry_at(es, p) <= es.len(),
        entry_at(es, p) < es.len() ==> components(es[entry_at(es, p)].path) == components(p),
        forall|k: int|
            0 <= k < entry_at(es, p) ==> components((#[trigger] es[k]).path) != components(p),
    decreases es.len(),
{
    if es.len() > 0 && components(es[0].path) != components(p) {
        let t = es.skip(1);
        the_first_entry_with_a_path_is_found(t, p);
        let m = entry_at(t, p);
        assert forall|k: int| 0 <= k < m + 1 implies components((#[trigger] es[k]).path)
            != components(p) by {
            if k > 0 {
                assert(t[k - 1] == es[k]);
            }
        }
        if m < t.len() {
            assert(t[m] == es[m + 1]);
        }
    }
}

/// What was removed is gone from the view unless it still exists.
pub proof fn what_still_exists_is_not_gone(removed: Seq<Seq<u8>>, exists_now: Seq<bool>, n: int)
    requires
        0 <= n <= removed.len(),
        removed.len() == exists_now.len(),
    ensures
        exactly_those(
            gone_among(removed, exists_now, n),
            n,
            |i: int| !exists_now[i],
            |i: int| removed[i],
        ),
    decreases n,
{
    let keep = |i: int| !exists_now[i];
    let item = |i: int| removed[i];
    if n > 0 {
        what_still_exists_is_not_gone(removed, exists_now, n - 1);
        lemma_picked(gone_among(removed, exists_now, n - 1), n - 1, keep, item);
    } else {
        lemma_picked_none(keep, item);
    }
}

/// The rows that go are those whose path is gone, the last one first, and what
/// stays are the entries of all the others.
pub proof fn rows_go_with_their_paths(es: Seq<EntryView>, gone: Seq<Seq<u8>>, n: int, i: int)
    requires
        0 <= n <= es.len() <= usize::MAX,
        0 <= i < n,
    ensures
        gone_rows(es, gone, n).contains(i as usize) <==> exists|k: int|
            0 <= k < gone.len() && components(#[trigger] gone[k]) == components(es[i].path),
        forall|k: int, l: int|
            0 <= k < l < gone_rows(es, gone, n).len() ==> #[trigger] gone_rows(es, gone, n)[k]
                > #[trigger] gone_rows(es, gone, n)[l],
        forall|k: int|
            0 <= k < gone_rows(es, gone, n).len() ==> (#[trigger] gone_rows(es, gone, n)[k]) < n,
        still_there(gone)(es[i]) <==> !gone_rows(es, gone, n).contains(i as usize),
    decreases n,
{
    lemma_gone_rows(es, gone, n, i);
}

proof fn lemma_gone_rows(es: Seq<EntryView>, gone: Seq<Seq<u8>>, n: int, i: int)
    requires
        0 <= n <= es.len() <= usize::MAX,
        0 <= i,
    ensures
        i < n ==> (gone_rows(es, gone, n).contains(i as usize) <==> has_path(gone, es[i].path)),
        forall|k: int, l: int|
            0 <= k < l < gone_rows(es, gone, n).len() ==> #[trigger] gone_rows(es, gone, n)[k]
                > #[trigger] gone_rows(es, gone, n)[l],
        forall|k: int|
            0 <= k < gone_rows(es, gone, n).len() ==> (#[trigger] gone_rows(es, gone, n)[k]) < n,
    decreases n,
{
    if n > 0 {
        lemma_gone_rows(es, gone, n - 1, i);
        let before = gone_rows(es, gone, n - 1);
        let all = gone_rows(es, gone, n);
        if has_path(gone, es[n - 1].path) {
            assert(all[0] == (n - 1) as usize);
            assert forall|k: int| 0 < k < all.len() implies #[trigger] all[k] == before[k - 1] by {}
            if i < n - 1 {
                if before.contains(i as usize) {
                    let k = choose|k: int| 0 <= k < before.len() && before[k] == i as usize;
                    assert(all[k + 1] == i as usize);
                }
                if all.contains(i as usize) {
                    let k = choose|k: int| 0 <= k < all.len() && all[k] == i as usize;
                    assert(before[k - 1] == i as usize);
                }
            }
        } else if i == n - 1 && all.contains(i as usize) {
            let k = choose|k: int| 0 <= k < all.len() && all[k] == i as usize;
            assert(before[k] < n - 1);
        }
    }
}

/// Opening an entry shows it if it is a folder, and hands its file over
/// otherwise; opening several opens all of them, and none nothing.
pub proof fn opening_shows_folders_and_hands_files_over(chosen: Seq<EntryView>, p: Seq<u8>)
    ensures
        activated(p, true) == ActivationView::Navigate(p),
        activated(p, false) == ActivationView::Open(p),
        chosen.len() == 0 <==> selection_activated(chosen) is Nothing,
        chosen.len() > 1 <==> selection_activated(chosen) is OpenAll,
        chosen.len() == 1 && chosen[0].file_type is Directory ==> selection_activated(chosen)
            == ActivationView::Navigate(chosen[0].path),
        chosen.len() == 1 && !(chosen[0].file_type is Directory) ==> selection_activated(chosen)
            == ActivationView::Open(chosen[0].path),
{
}

/// What is chosen are the entries of the selected rows, in the order of the rows.
pub proof fn the_selected_entries_are_chosen(es: Seq<EntryView>, sel: Set<usize>, n: int)
    requires
        0 <= n <= es.len(),
    ensures
        exactly_those(
            chosen_upto(es, sel, n),
            n,
            |i: int| sel.contains(i as usize),
            |i: int| es[i],
        ),
    decreases n,
{
    let keep = |i: int| sel.contains(i as usize);
    let item = |i: int| es[i];
    if n > 0 {
        the_selected_entries_are_chosen(es, sel, n - 1);
        lemma_picked(chosen_upto(es, sel, n - 1), n - 1, keep, item);
    } else {
        lemma_picked_none(keep, item);
    }
}

/// The selected rows of the search results are those that are marked.
pub proof fn the_marked_rows_are_selected(flags: Seq<bool>, n: int)
    requires
        0 <= n <= flags.len(),
    ensures
        exactly_those(set_rows(flags, n), n, |i: int| flags[i], |i: int| i as usize),
    decreases n,
{
    let keep = |i: int| flags[i];
    let item = |i: int| i as usize;
    if n > 0 {
        the_marked_rows_are_selected(flags, n - 1);
        lemma_picked(set_rows(flags, n - 1), n - 1, keep, item);
    } else {
        lemma_picked_none(keep, item);
    }
}

/// Whether twenty digits stand in a row in a text, from a position on.
pub open spec fn twenty_digits_at(t: Seq<char>, i: int) -> bool {
    0 <= i && i + 20 <= t.len() && forall|k: int| i <= k < i + 20 ==> is_decimal(#[trigger] t[k])
}

/// Whether a name is ordinary: there are no twenty digits in a row in the form by
/// which names are ordered.
pub open spec fn ordinary(name: Seq<char>) -> bool {
    forall|i: int| !#[trigger] twenty_digits_at(lexical(name), i)
}

/// Ordinary names can be compared with every name.
pub proof fn ordinary_names_can_be_compared(a: Seq<char>, b: Seq<char>)
    requires
        ordinary(a),
    ensures
        !clash(a, b),
        !clash(b, a),
{
    let t = lexical(a);
    assert forall|i: int| 0 <= i && i + 20 <= t.len() implies !all_decimal(
        #[trigger] t.subrange(i, i + 20),
    ) by {
        if all_decimal(t.subrange(i, i + 20)) {
            assert forall|k: int| i <= k < i + 20 implies is_decimal(#[trigger] t[k]) by {
                assert(t.subrange(i, i + 20)[k - i] == t[k]);
            }
            assert(twenty_digits_at(t, i));
        }
    }
    lemma_short_runs_never_meet(t, lexical(b));
}

/// The rows of all that is visible.
pub open spec fn visible_rows_of(all: Seq<EntryView>, show_hidden: bool) -> Seq<usize> {
    visible_upto(all, show_hidden, all.len() as int)
}

proof fn lemma_view_by_name(
    all: Seq<EntryView>,
    shown: Seq<EntryView>,
    show_hidden: bool,
    order: SortOrder,
    rows: Seq<usize>,
) -> (moved: Seq<usize>)
    requires
        is_view(all, shown, show_hidden, SortKey::Name, order, rows),
        all.len() <= usize::MAX,
        forall|k: int| 0 <= k < all.len() ==> ordinary((#[trigger] all[k]).display_name),
    ensures
        sorted_from(all, visible_rows_of(all, show_hidden), rows, SortKey::Name, order, moved),
{
    let visible = visible_rows_of(all, show_hidden);
    lemma_rows_exist(all, show_hidden);
    assert forall|k: int, l: int|
        0 <= k < visible.len() && 0 <= l < visible.len() && k != l implies comparable(
        all[#[trigger] visible[k] as int],
        all[#[trigger] visible[l] as int],
        SortKey::Name,
    ) by {
        let x = all[visible[k] as int];
        let y = all[visible[l] as int];
        assert(ordinary(x.display_name));
        ordinary_names_can_be_compared(x.display_name, y.display_name);
    }
    assert(sortable(all, visible, SortKey::Name));
    choose|moved: Seq<usize>| sorted_from(all, visible, rows, SortKey::Name, order, moved)
}

proof fn lemma_shown_name(
    all: Seq<EntryView>,
    shown: Seq<EntryView>,
    show_hidden: bool,
    order: SortOrder,
    rows: Seq<usize>,
    i: int,
    j: int,
)
    requires
        is_view(all, shown, show_hidden, SortKey::Name, order, rows),
        0 <= i < j < shown.len(),
        (shown[i].file_type == FileType::Directory) == (shown[j].file_type
            == FileType::Directory),
    ensures
        row_name(all, rows, i) == shown[i].display_name,
        row_name(all, rows, j) == shown[j].display_name,
        same_group(all, rows, i, j),
        j < rows.len(),
{
    assert(rows[i] < all.len());
    assert(rows[j] < all.len());
}

/// A listing of ordinary names by name is in their natural order, or the other way
/// round, folders and the rest each for themselves.
pub proof fn a_listing_by_name_is_in_order(
    all: Seq<EntryView>,
    shown: Seq<EntryView>,
    show_hidden: bool,
    order: SortOrder,
    rows: Seq<usize>,
    i: int,
    j: int,
)
    requires
        is_view(all, shown, show_hidden, SortKey::Name, order, rows),
        all.len() <= usize::MAX,
        forall|k: int| 0 <= k < all.len() ==> ordinary((#[trigger] all[k]).display_name),
        0 <= i < j < shown.len(),
        (shown[i].file_type == FileType::Directory) == (shown[j].file_type
            == FileType::Directory),
    ensures
        order == SortOrder::Ascending ==> natural_order(
            shown[i].display_name,
            shown[j].display_name,
        ) != Ordering::Greater,
        order == SortOrder::Descending ==> natural_order(
            shown[i].display_name,
            shown[j].display_name,
        ) != Ordering::Less,
{
    let moved = lemma_view_by_name(all, shown, show_hidden, order, rows);
    lemma_shown_name(all, shown, show_hidden, order, rows, i, j);
    sorting_by_name_orders_the_names(
        all,
        visible_rows_of(all, show_hidden),
        rows,
        order,
        moved,
        i,
        j,
    );
}

/// What a new listing leaves alone: the history, the tabs, the clipboard, what can
/// be undone, a drag, a search and the other pane.
pub proof fn a_listing_leaves_the_rest_alone(a: AppState, b: AppState)
    requires
        same_but_listing(a, b),
    ensures
        a.back_stack == b.back_stack,
        a.forward_stack == b.forward_stack,
        a.tabs == b.tabs,
        a.active_tab_idx == b.active_tab_idx,
        a.clipboard == b.clipboard,
        a.undo == b.undo,
        a.drag_paths == b.drag_paths,
        a.search_hit_paths == b.search_hit_paths,
        a.search_root == b.search_root,
        a.inactive_pane == b.inactive_pane,
        a.active_is_right == b.active_is_right,
        a.rows_model == b.rows_model,
{
}

/// A row says the size of a file, the time of its last change and its kind as its
/// entry has them; of a folder the size does not matter.
pub proof fn a_row_says_size_time_and_kind(
    e: EntryView,
    other: u64,
    dirs: UserDirs,
    clipboard: Seq<Seq<u8>>,
    is_cut: bool,
    carried: Seq<Seq<u8>>,
)
    ensures
        ({
            let r = row_of(e, dirs, clipboard, is_cut, carried);
            let s = row_of(EntryView { size: other, ..e }, dirs, clipboard, is_cut, carried);
            &&& e.file_type is Directory ==> r.size_text == s.size_text
            &&& e.file_type is Directory ==> r.size_text == "—"@
            &&& !(e.file_type is Directory) ==> r.size_text == size_text(e.size as nat)
            &&& r.modified_text == mtime_text(e.mtime)
            &&& e.file_type is Directory ==> r.kind_text == kind_of(None, true)
            &&& !(e.file_type is Directory) ==> r.kind_text == kind_of(e.mime, false)
            &&& r.icon_name == entry_icon(e, dirs)
            &&& r.size_lo == wrap_i32(e.size as int % 0x1_0000_0000)
            &&& r.size_hi == wrap_i32(e.size as int / 0x1_0000_0000)
        }),
{
}

} // verus!
