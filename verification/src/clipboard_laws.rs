//! What is copied, pasted and dropped, and where.
use crate::clipboard::{
    conflict_upto, drop_folder, droppable, droppable_upto, hits_upto, latest_upto, paste_place,
    path_lines, seconds, selection, DropPlace, ProgressMsg,
};
use crate::copy_run::path_views;
use crate::listing::chosen_upto;
use crate::listing_laws::the_selected_entries_are_chosen;
use crate::picking::{exactly_those, lemma_picked, lemma_picked_none, only_one_list_is_exact, picks};
use crate::state::AppState;
use crate::types::{entry_views, FileType, Place};
use crate::unix_path::{components, file_name, lossy, parent, UnixPath};
use vstd::prelude::*;
use vstd::utf8::*;

verus! {

/// The selected search results are the paths of the marked rows, in order.
pub proof fn marked_results_are_selected(paths: Seq<Seq<u8>>, selected: Seq<bool>, n: int)
    requires
        0 <= n <= selected.len(),
    ensures
        exactly_those(
            hits_upto(paths, selected, n),
            n,
            |i: int| i < paths.len() && selected[i],
            |i: int| paths[i],
        ),
    decreases n,
{
    let keep = |i: int| i < paths.len() && selected[i];
    let item = |i: int| paths[i];
    if n > 0 {
        marked_results_are_selected(paths, selected, n - 1);
        lemma_picked(hits_upto(paths, selected, n - 1), n - 1, keep, item);
    } else {
        lemma_picked_none(keep, item);
    }
}

/// Paths that are copied as text stand on a line each, in order.
pub proof fn each_path_stands_on_its_line(paths: Seq<Seq<u8>>, n: int, i: int)
    requires
        0 <= i < n <= paths.len(),
    ensures
        ({
            let text = path_lines(paths, n);
            let before = path_lines(paths, i);
            let from: int = if i == 0 {
                0int
            } else {
                before.len() as int + 1
            };
            &&& from + lossy(paths[i]).len() <= text.len()
            &&& text.subrange(from, from + lossy(paths[i]).len()) == lossy(paths[i])
            &&& i > 0 ==> text[from - 1] == '\n'
            &&& i == n - 1 ==> from + lossy(paths[i]).len() == text.len()
            &&& before.is_prefix_of(text)
        }),
    decreases n,
{
    reveal_strlit("\n");
    let text = path_lines(paths, n);
    let before = path_lines(paths, i);
    let from: int = if i == 0 {
        0int
    } else {
        before.len() as int + 1
    };
    let own = lossy(paths[i]);
    if i == n - 1 {
        assert(text.subrange(from, from + own.len()) =~= own);
        assert(text.subrange(0, before.len() as int) =~= before);
    } else {
        each_path_stands_on_its_line(paths, n - 1, i);
        let most = path_lines(paths, n - 1);
        assert(text.subrange(0, most.len() as int) =~= most);
        assert(text.subrange(from, from + own.len()) =~= most.subrange(from, from + own.len()));
        assert(text.subrange(0, before.len() as int) =~= most.subrange(0, before.len() as int));
        if i > 0 {
            assert(text[from - 1] == most[from - 1]);
        }
    }
}

/// With one folder selected that is no link and is not being pasted itself, what
/// is pasted goes into that folder.
pub proof fn pasting_goes_into_the_selected_folder(s: AppState, paths: Seq<Seq<u8>>, i: usize)
    requires
        s.selected@ == Set::empty().insert(i),
        i < s.entries@.len(),
        s.entries@[i as int].file_type == FileType::Directory,
        !s.entries@[i as int].is_symlink,
        forall|k: int|
            0 <= k < paths.len() ==> components(#[trigger] paths[k]) != components(
                s.entries@[i as int].path@,
            ),
    ensures
        paste_place(s, paths) == Some(s.entries@[i as int].path@),
{
    lemma_one_chosen(s, i);
}

proof fn lemma_one_chosen(s: AppState, i: usize)
    requires
        s.selected@ == Set::empty().insert(i),
        i < s.entries@.len(),
    ensures
        s.selected@.len() == 1,
        chosen_upto(entry_views(s.entries@), s.selected@, s.entries@.len() as int) == seq![
            s.entries@[i as int]@,
        ],
{
    let es = entry_views(s.entries@);
    let n = es.len() as int;
    let keep = |k: int| s.selected@.contains(k as usize);
    let item = |k: int| es[k];
    the_selected_entries_are_chosen(es, s.selected@, n);
    let one = seq![es[i as int]];
    let at = seq![i as int];
    assert forall|k: int| 0 <= k < n && #[trigger] keep(k) implies at.contains(k) by {
        assert(s.entries.len() == s.entries@.len());
        assert(at[0] == k);
    }
    assert(picks(one, n, keep, item, at));
    only_one_list_is_exact(chosen_upto(es, s.selected@, n), one, n, keep, item);
}

/// Otherwise what is pasted goes into the folder that is shown; where none is,
/// nothing is pasted.
pub proof fn pasting_goes_into_the_folder_that_is_shown(s: AppState, paths: Seq<Seq<u8>>)
    requires
        s.selected@.len() != 1 || exists|i: usize| #[trigger]
            s.selected@.contains(i) && i < s.entries@.len() && s.selected@ == Set::empty().insert(i)
                && (s.entries@[i as int].file_type != FileType::Directory
                || s.entries@[i as int].is_symlink || exists|k: int|
                0 <= k < paths.len() && components(#[trigger] paths[k]) == components(
                    s.entries@[i as int].path@,
                )),
    ensures
        paste_place(s, paths) == match s@.active.live.current {
            Some(Place::Local(b)) => Some(b),
            _ => None,
        },
{
    if s.selected@.len() == 1 {
        let i = choose|i: usize| #[trigger]
            s.selected@.contains(i) && i < s.entries@.len() && s.selected@ == Set::empty().insert(i)
                && (s.entries@[i as int].file_type != FileType::Directory
                || s.entries@[i as int].is_symlink || exists|k: int|
                0 <= k < paths.len() && components(#[trigger] paths[k]) == components(
                    s.entries@[i as int].path@,
                ));
        lemma_one_chosen(s, i);
    }
}

/// Something is dropped on the place under the pointer if that is a folder, or
/// else on the folder in the row under it, in the pane that it is in.
pub proof fn things_are_dropped_on_folders(s: AppState, d: DropPlace)
    ensures
        d.path@.len() > 0 && d.path_is_dir ==> drop_folder(s, d) == Some(encode_utf8(d.path@)),
        d.path@.len() > 0 && !d.path_is_dir ==> drop_folder(s, d) is None,
        d.path@.len() == 0 && d.row < 0 ==> drop_folder(s, d) is None,
        d.path@.len() == 0 && d.in_active_pane && 0 <= d.row < s.entries@.len() ==> drop_folder(
            s,
            d,
        ) == if s.entries@[d.row as int].file_type is Directory {
            Some(s.entries@[d.row as int].path@)
        } else {
            None
        },
        d.path@.len() == 0 && !d.in_active_pane ==> {
            &&& s.inactive_pane is None ==> drop_folder(s, d) is None
            &&& s.inactive_pane is Some && 0 <= d.row < s.inactive_pane->0.entries@.len()
                ==> drop_folder(s, d) == if s.inactive_pane->0.entries@[d.row as int].file_type is Directory {
                Some(s.inactive_pane->0.entries@[d.row as int].path@)
            } else {
                None
            }
        },
{
}

/// Of what is dragged everything is dropped, in order, but what the folder lies
/// in, what it is itself and what is in it already.
pub proof fn the_rest_is_dropped(paths: Seq<Seq<u8>>, dest: Seq<u8>, n: int)
    requires
        0 <= n <= paths.len(),
    ensures
        exactly_those(
            droppable_upto(paths, dest, n),
            n,
            |i: int|
                {
                    &&& !components(paths[i]).is_prefix_of(components(dest))
                    &&& parent(paths[i]) is Some ==> components(parent(paths[i])->0) != components(
                        dest,
                    )
                },
            |i: int| paths[i],
        ),
    decreases n,
{
    let keep = |i: int|
        {
            &&& !components(paths[i]).is_prefix_of(components(dest))
            &&& parent(paths[i]) is Some ==> components(parent(paths[i])->0) != components(dest)
        };
    let item = |i: int| paths[i];
    if n > 0 {
        the_rest_is_dropped(paths, dest, n - 1);
        let c = components(dest);
        assert(c.subrange(0, c.len() as int) =~= c);
        assert(droppable(paths[n - 1], dest) <==> keep(n - 1));
        lemma_picked(droppable_upto(paths, dest, n - 1), n - 1, keep, item);
    } else {
        lemma_picked_none(keep, item);
    }
}

/// Of several messages on the progress the last one is shown.
pub proof fn the_last_progress_is_shown(msgs: Seq<ProgressMsg>, n: int)
    requires
        0 <= n <= msgs.len(),
    ensures
        match latest_upto(msgs, n) {
            Some(p) => exists|i: int|
                0 <= i < n && #[trigger] msgs[i] == ProgressMsg::Update(p) && forall|k: int|
                    i < k < n ==> !((#[trigger] msgs[k]) is Update),
            None => forall|k: int| 0 <= k < n ==> !((#[trigger] msgs[k]) is Update),
        },
    decreases n,
{
    if n > 0 {
        the_last_progress_is_shown(msgs, n - 1);
        if !(msgs[n - 1] is Update) && latest_upto(msgs, n) is Some {
            let p = latest_upto(msgs, n)->0;
            let i = choose|i: int|
                0 <= i < n - 1 && #[trigger] msgs[i] == ProgressMsg::Update(p) && forall|k: int|
                    i < k < n - 1 ==> !((#[trigger] msgs[k]) is Update);
            assert(msgs[i] == ProgressMsg::Update(p));
        }
        if msgs[n - 1] is Update {
            assert(msgs[n - 1] == ProgressMsg::Update(latest_upto(msgs, n)->0));
        }
    }
}

/// The conflict that is asked about is the last one, by the name of its path.
pub proof fn the_last_conflict_is_asked_about(msgs: Seq<ProgressMsg>, n: int, i: int)
    requires
        0 <= i < n <= msgs.len(),
        msgs[i] is Conflict,
        forall|k: int| i < k < n ==> !((#[trigger] msgs[k]) is Conflict),
    ensures
        conflict_upto(msgs, n) is Some,
        file_name(msgs[i]->Conflict_0@) matches Some(name) ==> conflict_upto(msgs, n) == Some(
            lossy(name),
        ),
    decreases n,
{
    if i < n - 1 {
        assert(!(msgs[n - 1] is Conflict));
        the_last_conflict_is_asked_about(msgs, n - 1, i);
    }
}

/// Without a conflict nothing is asked.
pub proof fn without_a_conflict_nothing_is_asked(msgs: Seq<ProgressMsg>, n: int)
    requires
        0 <= n <= msgs.len(),
        forall|k: int| 0 <= k < n ==> !((#[trigger] msgs[k]) is Conflict),
    ensures
        conflict_upto(msgs, n) is None,
    decreases n,
{
    if n > 0 {
        assert(!(msgs[n - 1] is Conflict));
        without_a_conflict_nothing_is_asked(msgs, n - 1);
    }
}

/// What is selected in a folder are the paths of the selected rows, in order.
pub proof fn selected_rows_give_their_paths(s: AppState, rows: Seq<bool>)
    ensures
        exactly_those(
            selection(s, false, rows),
            s.entries@.len() as int,
            |i: int| s.selected@.contains(i as usize),
            |i: int| s.entries@[i].path@,
        ),
        selection(s, true, rows) == hits_upto(
            path_views(s.search_hit_paths@),
            rows,
            rows.len() as int,
        ),
{
    let es = entry_views(s.entries@);
    let n = es.len() as int;
    let keep = |i: int| s.selected@.contains(i as usize);
    let item = |i: int| es[i];
    let path = |i: int| s.entries@[i].path@;
    the_selected_entries_are_chosen(es, s.selected@, n);
    let chosen = chosen_upto(es, s.selected@, n);
    let at = choose|at: Seq<int>| picks(chosen, n, keep, item, at);
    let out = selection(s, false, rows);
    assert forall|k: int| 0 <= k < at.len() implies 0 <= #[trigger] at[k] < n && keep(at[k])
        && out[k] == path(at[k]) by {
        assert(chosen[k] == item(at[k]));
    }
    assert(picks(out, n, keep, path, at));
}

/// What a transfer leaves to be undone are the places where things are now, in
/// order.
pub proof fn transfers_leave_their_destinations(v: Seq<(UnixPath, UnixPath)>, i: int)
    requires
        0 <= i < v.len(),
    ensures
        seconds(v).len() == v.len(),
        seconds(v)[i] == v[i].1@,
{
}

} // verus!
