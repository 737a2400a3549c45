//! How selections change, and what is said of them.
use crate::archive::archive_path;
use crate::format_util::size_text;
use crate::num_text::decimal;
use crate::selection::{
    bytes_upto, clicked, counted_noun, files_upto, folders_upto, group_summary, items_phrase,
    moved_to, same_but_selection, search_clicked, selected_archive, selected_upto, single_summary,
    summary, NavKey, SearchRow, SelectMode,
};
use crate::state::AppState;
use crate::types::{EntryView, FileType};
use vstd::prelude::*;
use vstd::utf8::*;

verus! {

/// A plain click selects the row alone; one that toggles changes that row and no
/// other; one that extends adds exactly the rows from the last one to this one.
pub proof fn clicks_select_what_they_should(
    selected: Set<usize>,
    anchor: Option<usize>,
    i: usize,
    k: usize,
)
    ensures
        clicked(selected, anchor, i, SelectMode::Single).contains(k) <==> k == i,
        k != i ==> (clicked(selected, anchor, i, SelectMode::Toggle).contains(k)
            <==> selected.contains(k)),
        clicked(selected, anchor, i, SelectMode::Toggle).contains(i) <==> !selected.contains(i),
        anchor is None ==> (clicked(selected, anchor, i, SelectMode::Range).contains(k)
            <==> selected.contains(k) || k == i),
        anchor matches Some(a) ==> (clicked(selected, anchor, i, SelectMode::Range).contains(k)
            <==> selected.contains(k) || (a <= k && k <= i) || (i <= k && k <= a)),
{
}

/// Rows of search results are selected as those of a folder are.
pub proof fn search_results_are_selected_alike(
    selected: Set<usize>,
    anchor: Option<usize>,
    i: usize,
    k: usize,
    mode: SelectMode,
)
    ensures
        search_clicked(selected.contains(k), k as int, anchor, i as int, mode) <==> clicked(
            selected,
            anchor,
            i,
            mode,
        ).contains(k),
{
}

/// The keys lead to a row that exists: one further up or down, a page of fifteen
/// rows, or as far as there are rows; to the first, or to the last.
pub proof fn keys_lead_where_they_say(cur: int, n: int)
    requires
        0 <= cur < n,
    ensures
        moved_to(cur, n, NavKey::Home) == 0,
        moved_to(cur, n, NavKey::End) == n - 1,
        cur > 0 ==> moved_to(cur, n, NavKey::Up) == cur - 1,
        cur == 0 ==> moved_to(cur, n, NavKey::Up) == cur,
        cur < n - 1 ==> moved_to(cur, n, NavKey::Down) == cur + 1,
        cur == n - 1 ==> moved_to(cur, n, NavKey::Down) == cur,
        cur >= 15 ==> moved_to(cur, n, NavKey::PageUp) == cur - 15,
        cur < 15 ==> moved_to(cur, n, NavKey::PageUp) == 0,
        n - cur > 15 ==> moved_to(cur, n, NavKey::PageDown) == cur + 15,
        n - cur <= 15 ==> moved_to(cur, n, NavKey::PageDown) == n - 1,
{
}

/// Going down and up again, or up and down, leads back.
pub proof fn going_there_and_back(cur: int, n: int)
    requires
        0 <= cur < n,
    ensures
        cur < n - 1 ==> moved_to(moved_to(cur, n, NavKey::Down), n, NavKey::Up) == cur,
        cur > 0 ==> moved_to(moved_to(cur, n, NavKey::Up), n, NavKey::Down) == cur,
        cur + 15 < n ==> moved_to(moved_to(cur, n, NavKey::PageDown), n, NavKey::PageUp) == cur,
{
}

/// Nothing selected counts nothing.
pub proof fn nothing_selected_counts_nothing(es: Seq<EntryView>, n: int)
    requires
        0 <= n <= es.len(),
    ensures
        folders_upto(es, Set::empty(), n) == 0,
        files_upto(es, Set::empty(), n) == 0,
        bytes_upto(es, Set::empty(), n) == 0,
    decreases n,
{
    if n > 0 {
        nothing_selected_counts_nothing(es, n - 1);
    }
}

/// Selecting one more entry adds one folder, or one file with its size.
pub proof fn one_more_entry_counts_once(es: Seq<EntryView>, sel: Set<usize>, i: usize, n: int)
    requires
        0 <= n <= es.len() <= usize::MAX,
        !sel.contains(i),
    ensures
        i < n && es[i as int].file_type is Directory ==> {
            &&& folders_upto(es, sel.insert(i), n) == folders_upto(es, sel, n) + 1
            &&& files_upto(es, sel.insert(i), n) == files_upto(es, sel, n)
            &&& bytes_upto(es, sel.insert(i), n) == bytes_upto(es, sel, n)
        },
        i < n && !(es[i as int].file_type is Directory) ==> {
            &&& folders_upto(es, sel.insert(i), n) == folders_upto(es, sel, n)
            &&& files_upto(es, sel.insert(i), n) == files_upto(es, sel, n) + 1
            &&& bytes_upto(es, sel.insert(i), n) == bytes_upto(es, sel, n) + es[i as int].size
        },
        i >= n ==> {
            &&& folders_upto(es, sel.insert(i), n) == folders_upto(es, sel, n)
            &&& files_upto(es, sel.insert(i), n) == files_upto(es, sel, n)
            &&& bytes_upto(es, sel.insert(i), n) == bytes_upto(es, sel, n)
        },
    decreases n,
{
    if n > 0 {
        one_more_entry_counts_once(es, sel, i, n - 1);
    }
}

/// Marking one more search result counts one more.
pub proof fn one_more_result_counts_once(rows: Seq<SearchRow>, marked: SearchRow, i: int, n: int)
    requires
        0 <= n <= rows.len(),
        0 <= i < rows.len(),
        !rows[i].selected,
        marked.selected,
    ensures
        selected_upto(rows.update(i, marked), n) == selected_upto(rows, n) + if i < n {
            1int
        } else {
            0int
        },
        (forall|k: int| 0 <= k < n ==> !(#[trigger] rows[k]).selected) ==> selected_upto(rows, n)
            == 0,
    decreases n,
{
    if n > 0 {
        one_more_result_counts_once(rows, marked, i, n - 1);
    }
}

/// A number of things is said with the noun for one of them or the one for many.
pub proof fn one_thing_is_not_many(n: nat, one: Seq<char>, many: Seq<char>)
    ensures
        decimal(n).is_prefix_of(counted_noun(n, one, many)),
        n == 1 ==> one.is_suffix_of(counted_noun(n, one, many)),
        n != 1 ==> many.is_suffix_of(counted_noun(n, one, many)),
{
    let t = counted_noun(n, one, many);
    let tail = if n == 1 {
        one
    } else {
        many
    };
    assert(t.subrange(0, decimal(n).len() as int) =~= decimal(n));
    assert(t.subrange(t.len() - tail.len(), t.len() as int) =~= tail);
}

/// What is said of a single file begins with its name and ends with its size;
/// what is said of a folder begins with its name and does not say a size.
pub proof fn one_entry_is_named(e: EntryView, direct: nat)
    ensures
        e.display_name.is_prefix_of(single_summary(e, direct)),
        !(e.file_type is Directory) ==> (size_text(e.size as nat) + seq![')']).is_suffix_of(
            single_summary(e, direct),
        ),
        e.file_type is Directory ==> forall|size: u64|
            single_summary(e, direct) == #[trigger] single_summary(
                EntryView { size, ..e },
                direct,
            ),
{
    reveal_strlit(")");
    let t = single_summary(e, direct);
    assert(t.subrange(0, e.display_name.len() as int) =~= e.display_name);
    if e.file_type != FileType::Directory {
        let x = size_text(e.size as nat) + seq![')'];
        assert(t.subrange(t.len() - x.len(), t.len() as int) =~= x);
    }
}

/// What is said of several entries begins with the number of folders, or without
/// any with that of the files, and says the size of the files where there are
/// some.
pub proof fn several_entries_are_counted(folders: nat, files: nat, bytes: nat, direct: nat)
    ensures
        folders > 0 ==> decimal(folders).is_prefix_of(group_summary(folders, files, bytes, direct)),
        folders == 0 ==> decimal(files).is_prefix_of(group_summary(folders, files, bytes, direct)),
        files > 0 ==> (size_text(bytes) + seq![')']).is_suffix_of(
            group_summary(folders, files, bytes, direct),
        ),
        folders > 0 && files == 0 ==> forall|b: nat|
            group_summary(folders, files, bytes, direct) == #[trigger] group_summary(
                folders,
                files,
                b,
                direct,
            ),
        folders > 50 ==> forall|d: nat|
            group_summary(folders, files, bytes, direct) == #[trigger] group_summary(
                folders,
                files,
                bytes,
                d,
            ),
{
    reveal_strlit(")");
    let t = group_summary(folders, files, bytes, direct);
    let lead = if folders > 0 {
        decimal(folders)
    } else {
        decimal(files)
    };
    assert(t.subrange(0, lead.len() as int) =~= lead);
    if files > 0 {
        let x = size_text(bytes) + seq![')'];
        assert(t.subrange(t.len() - x.len(), t.len() as int) =~= x);
    }
}

/// Something is said exactly of a selection that holds an entry.
pub proof fn selections_are_spoken_of(es: Seq<EntryView>, sel: Set<usize>, direct: nat, i: usize)
    requires
        es.len() <= usize::MAX,
        sel == Set::empty().insert(i),
        i < es.len(),
    ensures
        summary(es, sel, direct) == single_summary(es[i as int], direct),
        summary(es, Set::empty(), direct).len() == 0,
{
    let n = es.len() as int;
    nothing_selected_counts_nothing(es, n);
    one_more_entry_counts_once(es, Set::empty(), i, n);
    assert(sel.len() == 1);
    assert(sel.contains(sel.choose()));
}

/// What selecting leaves alone: the entries, the place, the history, the tabs, the
/// other pane, the clipboard and what can be undone.
pub proof fn selecting_leaves_the_rest_alone(a: AppState, b: AppState)
    requires
        same_but_selection(a, b),
    ensures
        a.entries == b.entries,
        a.all_entries == b.all_entries,
        a.current == b.current,
        a.back_stack == b.back_stack,
        a.forward_stack == b.forward_stack,
        a.tabs == b.tabs,
        a.active_tab_idx == b.active_tab_idx,
        a.inactive_pane == b.inactive_pane,
        a.clipboard == b.clipboard,
        a.undo == b.undo,
        a.drag_paths == b.drag_paths,
        a.search_hit_paths == b.search_hit_paths,
{
}

/// A search result can be extracted where it is selected, is no folder and has the
/// name of an archive.
pub proof fn selected_archives_can_be_extracted(r: SearchRow)
    ensures
        selected_archive(r) ==> r.selected && !r.is_dir,
        r.selected && !r.is_dir ==> (selected_archive(r) <==> archive_path(
            encode_utf8(r.display_name@),
        )),
{
}

/// The items in folders are counted with their noun.
pub proof fn items_are_counted_with_their_noun(n: nat)
    ensures
        decimal(n).is_prefix_of(items_phrase(n)),
        n == 1 ==> items_phrase(n).last() == 'm',
        n != 1 ==> items_phrase(n).last() == 's',
{
    reveal_strlit("item");
    reveal_strlit("items");
    let t = items_phrase(n);
    assert(decimal(n) =~= t.subrange(0, decimal(n).len() as int));
}

/// Of folders that were looked into, the items in them are said; the files that
/// are selected beside them are counted with their size at the end.
pub proof fn folders_and_files_are_both_said(folders: nat, files: nat, bytes: nat, direct: nat)
    requires
        folders > 0,
    ensures
        ({
            let t = group_summary(folders, files, bytes, direct);
            let lead = counted_noun(folders, "folder"@, "folders"@) + " selected"@;
            let tail = counted_noun(files, "file"@, "files"@) + " ("@ + size_text(bytes) + ")"@;
            &&& lead.is_prefix_of(t)
            &&& folders <= 50 ==> (lead + " (containing "@ + items_phrase(direct)
                + ")"@).is_prefix_of(t)
            &&& folders > 50 && files == 0 ==> t == lead
            &&& files > 0 ==> tail.is_suffix_of(t)
        }),
{
    let t = group_summary(folders, files, bytes, direct);
    let lead = counted_noun(folders, "folder"@, "folders"@) + " selected"@;
    let more = lead + " (containing "@ + items_phrase(direct) + ")"@;
    let tail = counted_noun(files, "file"@, "files"@) + " ("@ + size_text(bytes) + ")"@;
    assert(t.subrange(0, lead.len() as int) =~= lead);
    if folders <= 50 {
        assert(t.subrange(0, more.len() as int) =~= more);
    }
    if folders > 50 && files == 0 {
        assert(t =~= lead);
    }
    if files > 0 {
        assert(t.subrange(t.len() - tail.len(), t.len() as int) =~= tail);
    }
}

/// Files alone are said by their number and their size.
pub proof fn files_alone_are_said(files: nat, bytes: nat, direct: nat)
    ensures
        group_summary(0, files, bytes, direct) == counted_noun(files, "file"@, "files"@)
            + " selected ("@ + size_text(bytes) + ")"@,
{
}

} // verus!
