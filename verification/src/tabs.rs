//! The tab strips and the second pane of the window.
use crate::state::{
    empty_tab, opt_place, same_shared, tab_title, tab_views, title_of, window_ok, AppState,
    PaneView, TabSnapshot, TabView, WindowView,
};
use crate::trash_io::{in_trash, is_below_trash};
use crate::types::{place_text, EntryView, FileEntry, FileType, Location, Place};
use crate::unix_path::{lossy, UnixPath};
use crate::user_dirs::opt_path;
use std::collections::HashSet;
use vstd::prelude::*;
use vstd::std_specs::hash::*;
use vstd::string::*;

verus! {

broadcast use group_hash_axioms;

/// A tab as its strip shows it.
#[derive(Debug)]
pub struct TabInfo {
    pub title: String,
    pub is_active: bool,
    pub path: String,
}

/// A tab as its strip shows it, in mathematical terms.
pub struct TabLabel {
    pub title: Seq<char>,
    pub is_active: bool,
    pub path: Seq<char>,
}

impl View for TabInfo {
    type V = TabLabel;

    open spec fn view(&self) -> TabLabel {
        TabLabel { title: self.title@, is_active: self.is_active, path: self.path@ }
    }
}

/// The path of a local place, as text.
pub open spec fn local_text(p: Option<Place>) -> Seq<char> {
    match p {
        Some(Place::Local(b)) => lossy(b),
        _ => Seq::empty(),
    }
}

/// How tab `i` of a pane is labelled. The active tab goes by the place that the
/// pane shows, the others by their snapshots.
pub open spec fn tab_label(p: PaneView, i: int) -> TabLabel {
    let t = p.tabs[i];
    if i == p.active {
        TabLabel {
            title: title_of(p.live.current),
            is_active: true,
            path: local_text(p.live.current),
        }
    } else {
        TabLabel {
            title: if t.1.len() > 0 {
                t.1
            } else {
                title_of(t.0.current)
            },
            is_active: false,
            path: local_text(t.0.current),
        }
    }
}

fn local_path_text(l: &Option<Location>) -> (r: String)
    ensures
        r@ == local_text(opt_place(*l)),
{
    match l {
        Some(Location::Local(p)) => p.display(),
        _ => String::new(),
    }
}

/// The labels of a pane's tabs.
pub fn build_tab_infos(
    tabs: &Vec<TabSnapshot>,
    active: usize,
    live_current: &Option<Location>,
) -> (r: Vec<TabInfo>)
    ensures
        r@.len() == tabs@.len(),
        forall|p: PaneView, i: int|
            p.tabs == tab_views(tabs@) && p.active == active && p.live.current == opt_place(
                *live_current,
            ) && 0 <= i < r@.len() ==> (#[trigger] r@[i])@ == #[trigger] tab_label(p, i),
{
    let mut out: Vec<TabInfo> = Vec::new();
    let mut i: usize = 0;
    while i < tabs.len()
        invariant
            i <= tabs@.len(),
            out@.len() == i,
            forall|p: PaneView, k: int|
                p.tabs == tab_views(tabs@) && p.active == active && p.live.current == opt_place(
                    *live_current,
                ) && 0 <= k < i ==> (#[trigger] out@[k])@ == #[trigger] tab_label(p, k),
        decreases tabs@.len() - i,
    {
        let t = &tabs[i];
        let info = if i == active {
            TabInfo {
                title: tab_title(live_current),
                is_active: true,
                path: local_path_text(live_current),
            }
        } else {
            let title: String = if t.title.as_str().is_empty() {
                tab_title(&t.current)
            } else {
                t.title.clone()
            };
            TabInfo { title, is_active: false, path: local_path_text(&t.current) }
        };
        assert(tab_views(tabs@)[i as int] == t@);
        out.push(info);
        i += 1;
    }
    out
}

/// Whether the other pane has to become active for the given side to be active.
pub fn needs_swap(state: &AppState, is_right: bool) -> (r: bool)
    ensures
        r == (state@.other is Some && is_right != state@.active_is_right),
{
    state.split_active() && is_right != state.active_is_right
}

/// Makes the pane on the given side the active one. Returns whether the panes
/// were swapped.
pub fn ensure_side_active(state: &mut AppState, is_right: bool) -> (r: bool)
    requires
        window_ok(old(state)@),
    ensures
        r == (old(state)@.other is Some && is_right != old(state)@.active_is_right),
        r ==> final(state)@ == crate::state::swapped(old(state)@),
        !r ==> final(state)@ == old(state)@,
        final(state)@.other is Some ==> final(state)@.active_is_right == is_right,
        window_ok(final(state)@),
        same_shared(*final(state), *old(state)),
{
    if needs_swap(state, is_right) {
        state.swap_active();
        true
    } else {
        false
    }
}

/// The tab that a close request means: a negative index stands for the active
/// one.
pub fn tab_to_close(state: &AppState, idx: i32) -> (r: usize)
    ensures
        r == if idx < 0 {
            state.active_tab_idx as int
        } else {
            idx as int
        },
{
    if idx < 0 {
        state.active_tab_idx
    } else {
        idx as usize
    }
}

/// Closes a tab and, where it was the active one, makes the next one active.
/// Returns whether a tab was closed, and the row model to show where that
/// changed.
pub fn close_tab(state: &mut AppState, idx: i32) -> (r: (bool, Option<u64>))
    requires
        window_ok(old(state)@),
        old(state).next_model < u64::MAX,
    ensures
        ({
            let w = old(state)@;
            let want = if idx < 0 {
                w.active.active
            } else {
                idx as int
            };
            let closed = crate::state::with_tab_closed(w, want);
            if w.active.tabs.len() <= 1 || want >= w.active.tabs.len() {
                r == (false, None::<u64>) && final(state)@ == w
            } else if want == w.active.active {
                r == (true, Some(final(state).rows_model)) && final(state)@ == crate::state::opened(
                    closed,
                    closed.active.active,
                )
            } else {
                r == (true, None::<u64>) && final(state)@ == closed
            }
        }),
        window_ok(final(state)@),
        same_shared(*final(state), *old(state)),
{
    let want: usize = tab_to_close(state, idx);
    let was_active: bool = want == state.active_tab_idx;
    if state.close_tab(want).is_none() {
        return (false, None);
    }
    if was_active {
        let now: usize = state.active_tab_idx;
        let model = state.restore_after_close(now);
        return (true, model);
    }
    (true, None)
}

// ---------------------------------------------------------------------------
// Opening folders in tabs
// ---------------------------------------------------------------------------

/// The paths of the selected folders among the first `n` entries, in order.
pub open spec fn selected_dirs_upto(
    entries: Seq<EntryView>,
    selected: Set<usize>,
    n: int,
) -> Seq<Seq<u8>>
    decreases n,
{
    if n <= 0 {
        Seq::empty()
    } else {
        let before = selected_dirs_upto(entries, selected, n - 1);
        if selected.contains((n - 1) as usize) && entries[n - 1].file_type == FileType::Directory {
            before.push(entries[n - 1].path)
        } else {
            before
        }
    }
}

/// The paths of the selected folders, by row.
pub fn selected_dirs(entries: &Vec<FileEntry>, selected: &HashSet<usize>) -> (r: Vec<UnixPath>)
    ensures
        crate::copy_run::path_views(r@) == selected_dirs_upto(
            crate::types::entry_views(entries@),
            selected@,
            entries@.len() as int,
        ),
{
    let mut out: Vec<UnixPath> = Vec::new();
    let ghost es = crate::types::entry_views(entries@);
    let mut i: usize = 0;
    assert(crate::copy_run::path_views(out@) =~= selected_dirs_upto(es, selected@, 0));
    while i < entries.len()
        invariant
            i <= entries@.len(),
            es == crate::types::entry_views(entries@),
            crate::copy_run::path_views(out@) == selected_dirs_upto(es, selected@, i as int),
        decreases entries@.len() - i,
    {
        assert(es[i as int] == entries@[i as int]@);
        if selected.contains(&i) && entries[i].is_dir() {
            let ghost before = out@;
            out.push(entries[i].path.clone());
            assert(crate::copy_run::path_views(out@) =~= crate::copy_run::path_views(before).push(
                entries@[i as int].path@,
            ));
        }
        i += 1;
    }
    out
}

/// A window with a new tab that shows a place but has not listed it.
pub open spec fn with_tab_at(w: WindowView, place: Place) -> WindowView {
    WindowView {
        active: PaneView {
            tabs: w.active.tabs.push(
                (
                    TabView { current: Some(place), ..empty_tab(Some(w.next_model as u64)) },
                    title_of(Some(place)),
                ),
            ),
            ..w.active
        },
        next_model: w.next_model + 1,
        ..w
    }
}

/// A window with a new tab for each of the first `n` paths.
pub open spec fn with_tabs_at(w: WindowView, paths: Seq<Seq<u8>>, n: int) -> WindowView
    decreases n,
{
    if n <= 0 {
        w
    } else {
        with_tab_at(with_tabs_at(w, paths, n - 1), Place::Local(paths[n - 1]))
    }
}

/// Opens each folder in a tab of its own, to be listed when it is first shown.
/// Returns the first of the new tabs.
pub fn open_in_new_tabs(state: &mut AppState, dirs: &Vec<UnixPath>) -> (r: Option<usize>)
    requires
        window_ok(old(state)@),
        old(state).next_model + dirs@.len() < u64::MAX,
    ensures
        r is Some == (dirs@.len() > 0),
        r matches Some(i) ==> i == old(state)@.active.tabs.len(),
        final(state)@ == with_tabs_at(
            old(state)@,
            crate::copy_run::path_views(dirs@),
            dirs@.len() as int,
        ),
        window_ok(final(state)@),
        same_shared(*final(state), *old(state)),
{
    let ghost ps = crate::copy_run::path_views(dirs@);
    let mut first: Option<usize> = None;
    let mut i: usize = 0;
    while i < dirs.len()
        invariant
            i <= dirs@.len(),
            ps == crate::copy_run::path_views(dirs@),
            window_ok(state@),
            old(state).next_model + dirs@.len() < u64::MAX,
            state.next_model == old(state).next_model + i,
            state@ == with_tabs_at(old(state)@, ps, i as int),
            first is Some == (i > 0),
            first matches Some(k) ==> k == old(state)@.active.tabs.len(),
            state@.active.tabs.len() == old(state)@.active.tabs.len() + i,
            same_shared(*state, *old(state)),
        decreases dirs@.len() - i,
    {
        let ghost before = state@;
        let idx: usize = state.new_tab();
        if first.is_none() {
            first = Some(idx);
        }
        let loc = Some(Location::Local(dirs[i].clone()));
        let title = tab_title(&loc);
        let ghost mid = state.tabs@;
        let ghost added = mid[idx as int];
        assert(added@ == state@.active.tabs[idx as int]);
        let slot = &mut state.tabs[idx];
        slot.title = title;
        slot.current = loc;
        proof {
            let want = with_tab_at(before, Place::Local(ps[i as int]));
            assert(state.tabs@[idx as int]@.0 =~= want.active.tabs[idx as int].0);
            assert(state@.active.tabs[idx as int] == want.active.tabs[idx as int]);
            assert forall|k: int| 0 <= k < idx implies state@.active.tabs[k]
                == want.active.tabs[k] by {
                assert(state.tabs@[k] == mid[k]);
                assert(tab_views(mid)[k] == before.active.tabs[k]);
            }
            assert(state@.active.tabs =~= want.active.tabs);
            assert(state@ =~= want);
        }
        i += 1;
    }
    first
}

// ---------------------------------------------------------------------------
// The second pane
// ---------------------------------------------------------------------------

/// What becomes of a search when the second pane is toggled.
#[derive(Clone, Copy, Debug, PartialEq, Eq, Structural)]
pub enum SearchFate {
    /// Nothing changes.
    Unaffected,
    /// The search was shown in the pane that is dropped: close it.
    Close,
    /// The search stays, in the one pane that is left.
    MoveLeft,
}

/// Decides what becomes of a search when the second pane is toggled.
pub fn search_fate(state: &AppState, search_active: bool) -> (r: SearchFate)
    ensures
        r == if state@.other is None || !search_active {
            SearchFate::Unaffected
        } else if state.search_on_right != state@.active_is_right {
            SearchFate::Close
        } else {
            SearchFate::MoveLeft
        },
{
    if !state.split_active() || !search_active {
        SearchFate::Unaffected
    } else if state.search_on_right != state.active_is_right {
        SearchFate::Close
    } else {
        SearchFate::MoveLeft
    }
}

/// What the window shows of the panes.
#[derive(Debug)]
pub struct SplitView {
    pub split_active: bool,
    pub active_is_right: bool,
    pub search_on_right: bool,
    /// The row model of the other pane.
    pub inactive_rows: Option<u64>,
    pub inactive_path: String,
    pub inactive_in_trash: bool,
}

/// Whether a place is the trash or lies in it.
pub open spec fn is_trash_place(p: Place, files: Option<Seq<u8>>) -> bool {
    match p {
        Place::Local(b) => in_trash(b, files),
        Place::Trash => true,
    }
}

/// Whether a place is the trash or lies in the given directory of trashed
/// files.
pub fn location_is_trash(loc: &Location, files: &Option<UnixPath>) -> (r: bool)
    ensures
        r == is_trash_place(loc@, opt_path(*files)),
{
    match loc {
        Location::Local(p) => is_below_trash(p, files),
        Location::Trash => true,
    }
}

/// What the window shows of the panes.
pub fn publish_split(state: &AppState, trash_files: &Option<UnixPath>) -> (r: SplitView)
    ensures
        r.split_active == (state@.other is Some),
        r.active_is_right == state@.active_is_right,
        r.search_on_right == state.search_on_right,
        r.inactive_rows == match state@.other {
            Some(p) => p.live.rows_model,
            None => None,
        },
        r.inactive_path@ == match state@.other {
            Some(p) => match p.live.current {
                Some(l) => place_text(l),
                None => Seq::<char>::empty(),
            },
            None => Seq::<char>::empty(),
        },
        r.inactive_in_trash == match state@.other {
            Some(p) => match p.live.current {
                Some(l) => is_trash_place(l, opt_path(*trash_files)),
                None => false,
            },
            None => false,
        },
{
    let (rows, path, in_trash): (Option<u64>, String, bool) = match &state.inactive_pane {
        Some(p) => {
            match &p.current {
                Some(l) => (Some(p.rows_model), l.display(), location_is_trash(l, trash_files)),
                None => (Some(p.rows_model), String::new(), false),
            }
        },
        None => (None, String::new(), false),
    };
    SplitView {
        split_active: state.split_active(),
        active_is_right: state.active_is_right,
        search_on_right: state.search_on_right,
        inactive_rows: rows,
        inactive_path: path,
        inactive_in_trash: in_trash,
    }
}

} // verus!
