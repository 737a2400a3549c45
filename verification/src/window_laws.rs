//! How tabs, panes and the places they show change.
use crate::navigation::{
    about, complaint, departing, objection, same_place, stepping_back, stepping_forward, trail,
    with_trail, Examined, Preflight, Trail,
};
use crate::picking::{exactly_those, lemma_picked, lemma_picked_none};
use crate::state::{
    same_shared, split_toggled, swapped, switched, title_of, window_ok, with_new_tab,
    with_tab_closed, AppState, PaneView, WindowView,
};
use crate::tabs::{is_trash_place, selected_dirs_upto, tab_label, with_tabs_at};
use crate::trash_io::in_trash;
use crate::types::{place_parent, place_text, EntryView, Place};
use crate::unix_path::{components, file_name, lossy, parent_drops_last, slash};
use vstd::prelude::*;

verus! {

// ---------------------------------------------------------------------------
// Tabs and panes
// ---------------------------------------------------------------------------

/// A new tab comes behind the others, shows nothing yet and changes nothing else.
pub proof fn a_new_tab_comes_last(w: WindowView)
    ensures
        ({
            let v = with_new_tab(w);
            &&& v.active.tabs.len() == w.active.tabs.len() + 1
            &&& v.active.tabs.drop_last() == w.active.tabs
            &&& v.active.tabs.last().0.current is None
            &&& v.active.tabs.last().0.entries.len() == 0
            &&& v.active.tabs.last().0.back.len() == 0
            &&& v.active.tabs.last().0.forward.len() == 0
            &&& v.active.live == w.active.live
            &&& v.active.active == w.active.active
            &&& v.other == w.other
            &&& v.active_is_right == w.active_is_right
        }),
{
    assert(with_new_tab(w).active.tabs.drop_last() =~= w.active.tabs);
}

/// Closing a tab takes that tab away and no other; where it was the active one,
/// the one before it, or else the first, is active.
pub proof fn closing_takes_one_tab_away(w: WindowView, idx: int, k: int)
    requires
        window_ok(w),
        0 <= idx < w.active.tabs.len(),
        w.active.tabs.len() > 1,
        0 <= k < w.active.tabs.len() - 1,
    ensures
        ({
            let v = with_tab_closed(w, idx);
            &&& v.active.tabs.len() == w.active.tabs.len() - 1
            &&& k < idx ==> v.active.tabs[k] == w.active.tabs[k]
            &&& k >= idx ==> v.active.tabs[k] == w.active.tabs[k + 1]
            &&& v.other == w.other
            &&& idx != w.active.active ==> v.active.tabs[v.active.active]
                == w.active.tabs[w.active.active]
            &&& idx == w.active.active && idx > 0 ==> v.active.active == idx - 1
            &&& idx == w.active.active && idx == 0 ==> v.active.active == 0
            &&& window_ok(v)
        }),
{
}

/// Switching to a tab shows what that tab held, and keeps what was shown before
/// in its own tab; the other tabs stay as they are.
pub proof fn switching_shows_the_tab(w: WindowView, idx: int, k: int)
    requires
        window_ok(w),
        0 <= idx < w.active.tabs.len(),
        idx != w.active.active,
        0 <= k < w.active.tabs.len(),
    ensures
        ({
            let v = switched(w, idx);
            let held = w.active.tabs[idx].0;
            &&& v.active.active == idx
            &&& v.active.tabs.len() == w.active.tabs.len()
            &&& v.active.live.current == held.current
            &&& v.active.live.back == held.back
            &&& v.active.live.forward == held.forward
            &&& v.active.live.entries == held.entries
            &&& v.active.live.all_entries == held.all_entries
            &&& v.active.live.selected == held.selected
            &&& v.active.live.anchor == held.anchor
            &&& held.rows_model is Some ==> v.active.live.rows_model == held.rows_model
            &&& v.active.tabs[w.active.active].0 == w.active.live
            &&& k != idx && k != w.active.active ==> v.active.tabs[k] == w.active.tabs[k]
            &&& v.other == w.other
            &&& v.active_is_right == w.active_is_right
        }),
{
}

/// Splitting the window adds a pane with one tab that shows the given place, and
/// joining it again drops the other pane; the active one stays as it is.
pub proof fn splitting_adds_a_pane(w: WindowView, seed: Option<Place>)
    ensures
        ({
            let v = split_toggled(w, seed);
            &&& v.active == w.active
            &&& v.other is Some <==> w.other is None
            &&& w.other is None ==> {
                &&& v.other->0.live.current == seed
                &&& v.other->0.tabs.len() == 1
                &&& v.other->0.active == 0
                &&& v.other->0.live.entries.len() == 0
                &&& v.active_is_right == w.active_is_right
            }
            &&& w.other is Some ==> !v.active_is_right
        }),
{
}

/// Changing the pane makes the other one active and keeps all that the first one
/// shows.
pub proof fn changing_the_pane_keeps_both(w: WindowView)
    requires
        window_ok(w),
        w.other is Some,
    ensures
        swapped(w).active == w.other->0,
        swapped(w).other is Some,
        swapped(w).other->0.live == w.active.live,
        swapped(w).other->0.active == w.active.active,
        swapped(w).other->0.tabs.len() == w.active.tabs.len(),
        swapped(w).active_is_right != w.active_is_right,
{
}

/// A tab is called by the name of its folder, without one by its path.
pub proof fn tabs_are_called_by_their_folder(b: Seq<u8>)
    ensures
        file_name(b) is Some ==> title_of(Some(Place::Local(b))) == lossy(file_name(b)->0),
        file_name(b) is None ==> title_of(Some(Place::Local(b))) == lossy(b),
        title_of(Some(Place::Trash)).len() == 5,
{
    reveal_strlit("Trash");
}

/// Exactly the active tab is marked as such, with the place that is shown; the
/// others have the place that they hold, and are called as they were.
pub proof fn the_active_tab_is_marked(p: PaneView, i: int)
    requires
        0 <= i < p.tabs.len(),
    ensures
        tab_label(p, i).is_active <==> i == p.active,
        i == p.active && p.live.current is Some && p.live.current->0 is Local ==> tab_label(
            p,
            i,
        ).path == lossy(p.live.current->0->Local_0),
        i == p.active ==> tab_label(p, i).title == title_of(p.live.current),
        i != p.active && p.tabs[i].0.current is Some && p.tabs[i].0.current->0 is Local
            ==> tab_label(p, i).path == lossy(p.tabs[i].0.current->0->Local_0),
        i != p.active && p.tabs[i].1.len() > 0 ==> tab_label(p, i).title == p.tabs[i].1,
        i != p.active && p.tabs[i].1.len() == 0 ==> tab_label(p, i).title == title_of(
            p.tabs[i].0.current,
        ),
{
}

/// The folders that are opened in tabs are the selected ones, in order.
pub proof fn selected_folders_are_opened(es: Seq<EntryView>, selected: Set<usize>, n: int)
    requires
        0 <= n <= es.len(),
    ensures
        exactly_those(
            selected_dirs_upto(es, selected, n),
            n,
            |i: int| selected.contains(i as usize) && es[i].file_type is Directory,
            |i: int| es[i].path,
        ),
    decreases n,
{
    let keep = |i: int| selected.contains(i as usize) && es[i].file_type is Directory;
    let item = |i: int| es[i].path;
    if n > 0 {
        selected_folders_are_opened(es, selected, n - 1);
        lemma_picked(selected_dirs_upto(es, selected, n - 1), n - 1, keep, item);
    } else {
        lemma_picked_none(keep, item);
    }
}

/// Opening folders in tabs adds one tab for each behind the others, in order,
/// each with a row model of its own.
pub proof fn each_folder_gets_its_tab(w: WindowView, paths: Seq<Seq<u8>>, n: int, i: int)
    requires
        0 <= n <= paths.len(),
        0 <= i < n,
        0 <= w.next_model,
        w.next_model + n <= u64::MAX,
    ensures
        ({
            let v = with_tabs_at(w, paths, n);
            let m = w.active.tabs.len() as int;
            &&& v.active.tabs.len() == m + n
            &&& v.active.tabs.take(m) == w.active.tabs
            &&& v.active.tabs[m + i].0.current == Some(Place::Local(paths[i]))
            &&& v.active.tabs[m + i].1 == title_of(Some(Place::Local(paths[i])))
            &&& v.active.tabs[m + i].0.rows_model == Some((w.next_model + i) as u64)
            &&& v.active.live == w.active.live
            &&& v.active.active == w.active.active
            &&& v.other == w.other
            &&& v.next_model == w.next_model + n
        }),
    decreases n,
{
    let m = w.active.tabs.len() as int;
    let before = with_tabs_at(w, paths, n - 1);
    if n > 1 {
        each_folder_gets_its_tab(w, paths, n - 1, if i < n - 1 {
            i
        } else {
            0
        });
    } else {
        assert(with_tabs_at(w, paths, 0) == w);
        assert(w.active.tabs.take(m) =~= w.active.tabs);
    }
    let v = with_tabs_at(w, paths, n);
    assert(v.active.tabs.take(m) =~= before.active.tabs.take(m));
}

// ---------------------------------------------------------------------------
// Places
// ---------------------------------------------------------------------------

/// Whether two places are the same is decided by their paths alone.
pub proof fn places_are_the_same_by_their_paths(p: Seq<u8>, q: Seq<u8>)
    ensures
        same_place(Place::Local(p), Place::Local(q)) <==> components(p) == components(q),
        same_place(Place::Trash, Place::Trash),
        !same_place(Place::Local(p), Place::Trash),
        !same_place(Place::Trash, Place::Local(q)),
{
}

/// One level up from a folder is the folder that it lies in; nothing is above the
/// root and the trash.
pub proof fn up_leads_to_the_folder_above(p: Seq<u8>)
    ensures
        place_parent(Place::Local(p)) matches Some(q) ==> (q matches Place::Local(b) && components(
            b,
        ) == components(p).drop_last()),
        components(p).len() > 0 && components(p) != seq![seq![slash()]] <==> place_parent(
            Place::Local(p),
        ) is Some,
        place_parent(Place::Trash) is None,
{
    parent_drops_last(p);
}

/// A place is shown as its path.
pub proof fn places_are_shown_by_their_paths(p: Seq<u8>)
    ensures
        place_text(Place::Local(p)) == lossy(p),
{
}

/// Leaving for another place remembers where one was and forgets where one went
/// forward; going back or forward takes the last place that was remembered there
/// and remembers the current one on the other side.
pub proof fn places_are_remembered(t: Trail, at: Place)
    requires
        t.current == Some(at),
    ensures
        departing(t).back == t.back.push(at),
        departing(t).forward.len() == 0,
        t.back.len() > 0 ==> stepping_back(t).back == t.back.take(t.back.len() - 1)
            && stepping_back(t).forward == t.forward.push(at),
        t.forward.len() > 0 ==> stepping_forward(t).forward == t.forward.take(t.forward.len() - 1)
            && stepping_forward(t).back == t.back.push(at),
{
}

/// Changing the places that are remembered changes nothing else.
pub proof fn only_the_trail_changes(w: WindowView, t: Trail)
    ensures
        trail(with_trail(w, t)) == t,
        with_trail(w, t).active.live.entries == w.active.live.entries,
        with_trail(w, t).active.live.all_entries == w.active.live.all_entries,
        with_trail(w, t).active.live.selected == w.active.live.selected,
        with_trail(w, t).active.live.anchor == w.active.live.anchor,
        with_trail(w, t).active.live.rows_model == w.active.live.rows_model,
        with_trail(w, t).active.tabs == w.active.tabs,
        with_trail(w, t).active.active == w.active.active,
        with_trail(w, t).other == w.other,
        with_trail(w, t).next_model == w.next_model,
{
}

/// A folder is shown exactly where it is one, or a link to one, and can be
/// opened; the trash always is.
pub proof fn folders_that_can_be_opened_are_shown(p: Seq<u8>, f: Preflight)
    ensures
        complaint(p, f) is None <==> (f.opened is Directory || f.opened is NotDirectory) && match f.own {
            Some(own) => own is Directory,
            None => f.target is Directory,
        },
        objection(Place::Local(p), f) is None <==> complaint(p, f) is None,
        objection(Place::Trash, f) is None,
{
}

/// A place that is not shown is named in what is said of it, with the reason
/// behind it where there is one.
pub proof fn complaints_name_the_place(intro: Seq<char>, p: Seq<u8>, reason: Option<Seq<char>>)
    ensures
        intro.is_prefix_of(about(intro, p, reason)),
        ({
            let from = intro.len() as int + 2;
            let t = about(intro, p, reason);
            from + lossy(p).len() <= t.len() && t.subrange(from, from + lossy(p).len()) == lossy(p)
        }),
        reason is Some ==> reason->0.is_suffix_of(about(intro, p, reason)),
        reason is None ==> lossy(p).is_suffix_of(about(intro, p, reason)),
{
    reveal_strlit(":\n");
    reveal_strlit("\n\n");
    let t = about(intro, p, reason);
    let from = intro.len() as int + 2;
    assert(t.subrange(0, intro.len() as int) =~= intro);
    assert(t.subrange(from, from + lossy(p).len()) =~= lossy(p));
    match reason {
        Some(m) => {
            assert(t.subrange(t.len() - m.len(), t.len() as int) =~= m);
        },
        None => {
            assert(t.subrange(t.len() - lossy(p).len(), t.len() as int) =~= lossy(p));
        },
    }
}

/// Of a place the trash is what lies in the folder of its files.
pub proof fn the_trash_is_a_place(p: Seq<u8>, files: Option<Seq<u8>>)
    ensures
        is_trash_place(Place::Trash, files),
        is_trash_place(Place::Local(p), files) <==> in_trash(p, files),
{
}

/// What changes of tabs, panes and places leave alone: the clipboard, what can be
/// undone, a drag, what is to be selected and the search.
pub proof fn windows_share_the_rest(a: AppState, b: AppState)
    requires
        same_shared(a, b),
    ensures
        a.clipboard == b.clipboard,
        a.undo == b.undo,
        a.drag_paths == b.drag_paths,
        a.rubberband_base == b.rubberband_base,
        a.pending_select == b.pending_select,
        a.search_anchor == b.search_anchor,
        a.search_hit_paths == b.search_hit_paths,
        a.search_on_right == b.search_on_right,
        a.search_root == b.search_root,
{
}

/// In a window that is in order the active tab of each pane exists.
pub proof fn active_tabs_exist(w: WindowView)
    requires
        window_ok(w),
    ensures
        0 <= w.active.active < w.active.tabs.len(),
        w.other matches Some(p) ==> 0 <= p.active < p.tabs.len(),
{
}

/// A pane that is left keeps, in the slot of its active tab, the place and the
/// anchor, and calls the slot by the place; the other tabs stay as they are.
pub proof fn a_pane_that_is_left_keeps_its_place(w: WindowView, k: int)
    requires
        window_ok(w),
        w.other is Some,
        0 <= k < w.active.tabs.len(),
    ensures
        ({
            let left = swapped(w).other->0;
            let slot = left.tabs[w.active.active];
            &&& slot.0.current == w.active.live.current
            &&& slot.0.anchor == w.active.live.anchor
            &&& slot.0.rows_model == w.active.live.rows_model
            &&& slot.1 == title_of(w.active.live.current)
            &&& k != w.active.active ==> left.tabs[k] == w.active.tabs[k]
        }),
{
}

/// The tab of a new pane is called by the place that it shows, and its rows are its
/// own.
pub proof fn a_new_pane_is_called_by_its_place(w: WindowView, seed: Option<Place>)
    requires
        w.other is None,
        0 <= w.next_model <= u64::MAX,
    ensures
        ({
            let v = split_toggled(w, seed);
            &&& v.other->0.tabs[0].1 == title_of(seed)
            &&& v.other->0.live.rows_model == Some(w.next_model as u64)
            &&& v.next_model == w.next_model + 1
        }),
        title_of(Some(Place::Trash)) == "Trash"@,
        title_of(None) == "New tab"@,
{
}

/// What is said of a place that is not shown begins with what is wrong with it.
pub proof fn complaints_say_what_is_wrong(p: Seq<u8>, f: Preflight)
    requires
        complaint(p, f) is Some,
    ensures
        ({
            let t = complaint(p, f)->0;
            let open = f.own == Some(Examined::Directory) || (f.own is None && f.target
                is Directory);
            &&& f.own matches Some(Examined::NotFound(_)) ==> "Path does not exist"@.is_prefix_of(t)
            &&& f.own matches Some(Examined::Denied(_)) ==> "Permission denied"@.is_prefix_of(t)
            &&& f.own matches Some(Examined::Failed(m)) ==> "Cannot access path"@.is_prefix_of(t)
                && m@.is_suffix_of(t)
            &&& f.own matches Some(Examined::NotDirectory)
                ==> "This is a file, not a folder"@.is_prefix_of(t)
            &&& f.own is None && f.target is NotFound ==> "Broken symlink"@.is_prefix_of(t)
            &&& f.own is None && f.target is NotDirectory
                ==> "Symlink target is a file, not a folder"@.is_prefix_of(t)
            &&& f.own is None ==> (f.target matches Examined::Denied(m)
                ==> "Cannot resolve symlink"@.is_prefix_of(t) && m@.is_suffix_of(t))
            &&& f.own is None ==> (f.target matches Examined::Failed(m)
                ==> "Cannot resolve symlink"@.is_prefix_of(t) && m@.is_suffix_of(t))
            &&& open && f.opened is Denied ==> "Permission denied"@.is_prefix_of(t)
            &&& open ==> (f.opened matches Examined::NotFound(m)
                ==> "Cannot open this folder"@.is_prefix_of(t) && m@.is_suffix_of(t))
            &&& open ==> (f.opened matches Examined::Failed(m)
                ==> "Cannot open this folder"@.is_prefix_of(t) && m@.is_suffix_of(t))
        }),
{
    complaints_name_the_place("Path does not exist"@, p, None);
    complaints_name_the_place("Permission denied"@, p, None);
    complaints_name_the_place("This is a file, not a folder"@, p, None);
    complaints_name_the_place("Broken symlink"@, p, None);
    complaints_name_the_place("Symlink target is a file, not a folder"@, p, None);
    if let Some(Examined::Failed(m)) = f.own {
        complaints_name_the_place("Cannot access path"@, p, Some(m@));
    }
    match f.target {
        Examined::Denied(m) | Examined::Failed(m) => {
            complaints_name_the_place("Cannot resolve symlink"@, p, Some(m@));
        },
        _ => {},
    }
    match f.opened {
        Examined::NotFound(m) | Examined::Failed(m) => {
            complaints_name_the_place("Cannot open this folder"@, p, Some(m@));
        },
        _ => {},
    }
}

/// What a tab held is not kept twice: the slot of the tab that is switched to keeps
/// its name, its place and its anchor, and no entries.
pub proof fn a_tab_is_not_held_twice(w: WindowView, idx: int)
    requires
        window_ok(w),
        0 <= idx < w.active.tabs.len(),
        idx != w.active.active,
    ensures
        ({
            let slot = switched(w, idx).active.tabs[idx];
            let held = w.active.tabs[idx];
            &&& slot.1 == held.1
            &&& slot.0.current == held.0.current
            &&& slot.0.anchor == held.0.anchor
            &&& slot.0.entries.len() == 0
            &&& slot.0.all_entries.len() == 0
            &&& slot.0.back.len() == 0
            &&& slot.0.forward.len() == 0
            &&& forall|i: usize| !slot.0.selected.contains(i)
        }),
{
}

} // verus!
