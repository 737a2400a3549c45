//! The state of the window: panes, tabs and what they share.
//!
//! The fields of the active tab of the active pane stand in [`AppState`]
//! itself. The other tabs of a pane are kept as snapshots, and so is the other
//! pane of a split view. A row model is named by a number; whoever draws the
//! rows keeps the models.
use crate::types::{entry_views, EntryView, FileEntry, Location, Place};
use crate::undo::UndoStack;
use crate::unix_path::{file_name, lossy, lossy_text, UnixPath};
use std::collections::HashSet;
use vstd::prelude::*;
use vstd::std_specs::hash::*;
use vstd::string::*;

verus! {

broadcast use group_hash_axioms;

/// A tab that is not active.
pub struct TabSnapshot {
    pub rows_model: Option<u64>,
    pub back_stack: Vec<Location>,
    pub forward_stack: Vec<Location>,
    pub current: Option<Location>,
    pub entries: Vec<FileEntry>,
    /// The full listing; `entries` is the filtered and sorted view of it.
    pub all_entries: Vec<FileEntry>,
    pub selected: HashSet<usize>,
    pub anchor: Option<usize>,
    pub title: String,
}

/// A pane that is not active.
pub struct PaneState {
    pub rows_model: u64,
    pub back_stack: Vec<Location>,
    pub forward_stack: Vec<Location>,
    pub current: Option<Location>,
    pub entries: Vec<FileEntry>,
    pub all_entries: Vec<FileEntry>,
    pub selected: HashSet<usize>,
    pub anchor: Option<usize>,
    pub tabs: Vec<TabSnapshot>,
    pub active_tab_idx: usize,
}

/// Paths that were copied or cut.
pub struct Clipboard {
    pub paths: Vec<UnixPath>,
    pub cut: bool,
}

impl Default for Clipboard {
    fn default() -> (r: Self)
        ensures
            r.paths@ == Seq::<UnixPath>::empty(),
            !r.cut,
    {
        Clipboard { paths: Vec::new(), cut: false }
    }
}

/// The state of the window.
pub struct AppState {
    pub rows_model: u64,
    pub back_stack: Vec<Location>,
    pub forward_stack: Vec<Location>,
    pub current: Option<Location>,
    pub entries: Vec<FileEntry>,
    pub all_entries: Vec<FileEntry>,
    pub selected: HashSet<usize>,
    pub anchor: Option<usize>,
    pub tabs: Vec<TabSnapshot>,
    pub active_tab_idx: usize,
    pub clipboard: Clipboard,
    pub undo: UndoStack,
    /// The paths of a drag in progress.
    pub drag_paths: Vec<UnixPath>,
    /// The selection when a rubber band was begun.
    pub rubberband_base: HashSet<usize>,
    /// The path to select once the next listing is there.
    pub pending_select: Option<UnixPath>,
    pub search_anchor: Option<usize>,
    /// The path of each search result, by row.
    pub search_hit_paths: Vec<UnixPath>,
    /// Which side shows the search results.
    pub search_on_right: bool,
    /// Where the search started.
    pub search_root: Option<Location>,
    pub inactive_pane: Option<PaneState>,
    pub active_is_right: bool,
    /// The number that the next new row model gets.
    pub next_model: u64,
}

/// The views of a list of places.
pub open spec fn place_views(v: Seq<Location>) -> Seq<Place> {
    v.map_values(|l: Location| l@)
}

/// The view of a place that may be missing.
pub open spec fn opt_place(l: Option<Location>) -> Option<Place> {
    match l {
        Some(p) => Some(p@),
        None => None,
    }
}

/// What a tab shows and how it got there, in mathematical terms.
#[verifier::ext_equal]
pub struct TabView {
    pub rows_model: Option<u64>,
    pub back: Seq<Place>,
    pub forward: Seq<Place>,
    pub current: Option<Place>,
    pub entries: Seq<EntryView>,
    pub all_entries: Seq<EntryView>,
    pub selected: Set<usize>,
    pub anchor: Option<usize>,
}

/// A pane in mathematical terms: its active tab, its tabs with their titles
/// (the slot of the active one holds no more than what was there at the last
/// switch) and which of them is active.
#[verifier::ext_equal]
pub struct PaneView {
    pub live: TabView,
    pub tabs: Seq<(TabView, Seq<char>)>,
    pub active: int,
}

impl View for TabSnapshot {
    type V = (TabView, Seq<char>);

    open spec fn view(&self) -> (TabView, Seq<char>) {
        (
            TabView {
                rows_model: self.rows_model,
                back: place_views(self.back_stack@),
                forward: place_views(self.forward_stack@),
                current: opt_place(self.current),
                entries: entry_views(self.entries@),
                all_entries: entry_views(self.all_entries@),
                selected: self.selected@,
                anchor: self.anchor,
            },
            self.title@,
        )
    }
}

/// The views of a list of tabs.
pub open spec fn tab_views(v: Seq<TabSnapshot>) -> Seq<(TabView, Seq<char>)> {
    v.map_values(|t: TabSnapshot| t@)
}

impl View for PaneState {
    type V = PaneView;

    open spec fn view(&self) -> PaneView {
        PaneView {
            live: TabView {
                rows_model: Some(self.rows_model),
                back: place_views(self.back_stack@),
                forward: place_views(self.forward_stack@),
                current: opt_place(self.current),
                entries: entry_views(self.entries@),
                all_entries: entry_views(self.all_entries@),
                selected: self.selected@,
                anchor: self.anchor,
            },
            tabs: tab_views(self.tabs@),
            active: self.active_tab_idx as int,
        }
    }
}

/// The panes of the window in mathematical terms.
#[verifier::ext_equal]
pub struct WindowView {
    pub active: PaneView,
    pub other: Option<PaneView>,
    pub active_is_right: bool,
    pub next_model: int,
}

impl View for AppState {
    type V = WindowView;

    open spec fn view(&self) -> WindowView {
        WindowView {
            active: PaneView {
                live: TabView {
                    rows_model: Some(self.rows_model),
                    back: place_views(self.back_stack@),
                    forward: place_views(self.forward_stack@),
                    current: opt_place(self.current),
                    entries: entry_views(self.entries@),
                    all_entries: entry_views(self.all_entries@),
                    selected: self.selected@,
                    anchor: self.anchor,
                },
                tabs: tab_views(self.tabs@),
                active: self.active_tab_idx as int,
            },
            other: match self.inactive_pane {
                Some(p) => Some(p@),
                None => None,
            },
            active_is_right: self.active_is_right,
            next_model: self.next_model as int,
        }
    }
}

/// Whether what the panes share is the same.
pub open spec fn same_shared(a: AppState, b: AppState) -> bool {
    &&& a.clipboard == b.clipboard
    &&& a.undo == b.undo
    &&& a.drag_paths == b.drag_paths
    &&& a.rubberband_base == b.rubberband_base
    &&& a.pending_select == b.pending_select
    &&& a.search_anchor == b.search_anchor
    &&& a.search_hit_paths == b.search_hit_paths
    &&& a.search_on_right == b.search_on_right
    &&& a.search_root == b.search_root
}

/// A tab without anything.
pub open spec fn empty_tab(rows_model: Option<u64>) -> TabView {
    TabView {
        rows_model,
        back: Seq::empty(),
        forward: Seq::empty(),
        current: None,
        entries: Seq::empty(),
        all_entries: Seq::empty(),
        selected: Set::empty(),
        anchor: None,
    }
}

/// What is left of a tab in its slot while it is active: its model, place and
/// anchor.
pub open spec fn hollow(t: TabView) -> TabView {
    TabView { current: t.current, anchor: t.anchor, ..empty_tab(t.rows_model) }
}

/// The title of a tab that shows a place.
pub open spec fn title_of(p: Option<Place>) -> Seq<char> {
    match p {
        Some(Place::Local(b)) => match file_name(b) {
            Some(n) => lossy(n),
            None => lossy(b),
        },
        Some(Place::Trash) => "Trash"@,
        None => "New tab"@,
    }
}

/// Whether a pane has an active tab.
pub open spec fn pane_ok(p: PaneView) -> bool {
    0 <= p.active < p.tabs.len()
}

/// Whether every pane has an active tab.
pub open spec fn window_ok(w: WindowView) -> bool {
    pane_ok(w.active) && (w.other matches Some(p) ==> pane_ok(p))
}

/// The title of a tab that shows a place.
pub fn tab_title(loc: &Option<Location>) -> (r: String)
    ensures
        r@ == title_of(opt_place(*loc)),
{
    match loc {
        Some(Location::Local(p)) => {
            match p.file_name() {
                Some(n) => lossy_text(&n),
                None => p.display(),
            }
        },
        Some(Location::Trash) => "Trash".to_owned(),
        None => "New tab".to_owned(),
    }
}

/// Copies a place that may be missing.
pub fn copy_place(l: &Option<Location>) -> (r: Option<Location>)
    ensures
        opt_place(r) == opt_place(*l),
{
    match l {
        Some(p) => Some(p.clone()),
        None => None,
    }
}

impl TabSnapshot {
    /// A tab without anything.
    pub fn empty(rows_model: Option<u64>) -> (r: Self)
        ensures
            r@ == (empty_tab(rows_model), Seq::<char>::empty()),
    {
        let r = TabSnapshot {
            rows_model,
            back_stack: Vec::new(),
            forward_stack: Vec::new(),
            current: None,
            entries: Vec::new(),
            all_entries: Vec::new(),
            selected: HashSet::new(),
            anchor: None,
            title: String::new(),
        };
        assert(r@.0 =~= empty_tab(rows_model));
        r
    }
}

/// The window after the pane's active tab moved into its slot.
pub open spec fn stored(p: PaneView) -> PaneView {
    PaneView { tabs: p.tabs.update(p.active, (p.live, title_of(p.live.current))), ..p }
}

/// A tab with the row model `fresh` if it has none.
pub open spec fn with_model(t: TabView, fresh: int) -> TabView {
    if t.rows_model is Some {
        t
    } else {
        TabView { rows_model: Some(fresh as u64), ..t }
    }
}

/// A window after tab `idx` of the active pane moved out of its slot and became
/// active. A tab without a row model gets a new one.
pub open spec fn opened(w: WindowView, idx: int) -> WindowView {
    let slot = w.active.tabs[idx];
    let t = with_model(slot.0, w.next_model);
    WindowView {
        active: PaneView {
            live: t,
            tabs: w.active.tabs.update(idx, (hollow(t), slot.1)),
            active: idx,
        },
        next_model: if slot.0.rows_model is Some {
            w.next_model
        } else {
            w.next_model + 1
        },
        ..w
    }
}

/// A window after a switch to the tab `idx` of the active pane.
pub open spec fn switched(w: WindowView, idx: int) -> WindowView {
    opened(WindowView { active: stored(w.active), ..w }, idx)
}

/// A pane as it is put aside: the slot of its active tab has the current title.
pub open spec fn parked(p: PaneView) -> PaneView {
    PaneView { tabs: p.tabs.update(p.active, (hollow(p.live), title_of(p.live.current))), ..p }
}

/// Which tab is active after tab `idx` was closed.
pub open spec fn active_after_close(active: int, idx: int) -> int {
    if idx == active {
        if idx == 0 {
            0
        } else {
            idx - 1
        }
    } else if active > idx {
        active - 1
    } else {
        active
    }
}

impl AppState {
    /// A window with one pane and one tab.
    pub fn new(initial_rows_model: u64, next_model: u64) -> (r: Self)
        ensures
            r@ == (WindowView {
                active: PaneView {
                    live: empty_tab(Some(initial_rows_model)),
                    tabs: seq![(empty_tab(Some(initial_rows_model)), Seq::<char>::empty())],
                    active: 0,
                },
                other: None,
                active_is_right: false,
                next_model: next_model as int,
            }),
            window_ok(r@),
            r.clipboard.paths@.len() == 0,
            !r.clipboard.cut,
            r.undo.undo@.len() == 0,
            r.undo.redo@.len() == 0,
            r.drag_paths@.len() == 0,
            r.rubberband_base@ == Set::<usize>::empty(),
            r.pending_select is None,
            r.search_anchor is None,
            r.search_hit_paths@.len() == 0,
            !r.search_on_right,
            r.search_root is None,
    {
        let mut tabs: Vec<TabSnapshot> = Vec::new();
        tabs.push(TabSnapshot::empty(Some(initial_rows_model)));
        let r = AppState {
            rows_model: initial_rows_model,
            back_stack: Vec::new(),
            forward_stack: Vec::new(),
            current: None,
            entries: Vec::new(),
            all_entries: Vec::new(),
            selected: HashSet::new(),
            anchor: None,
            tabs,
            active_tab_idx: 0,
            clipboard: Clipboard::default(),
            undo: UndoStack::default(),
            drag_paths: Vec::new(),
            rubberband_base: HashSet::new(),
            pending_select: None,
            search_anchor: None,
            search_hit_paths: Vec::new(),
            search_on_right: false,
            search_root: None,
            inactive_pane: None,
            active_is_right: false,
            next_model,
        };
        assert(r@.active.live =~= empty_tab(Some(initial_rows_model)));
        assert(r@.active.tabs =~= seq![
            (empty_tab(Some(initial_rows_model)), Seq::<char>::empty()),
        ]);
        r
    }

    /// Names a new row model.
    fn fresh_model(&mut self) -> (r: u64)
        requires
            old(self).next_model < u64::MAX,
        ensures
            r == old(self).next_model,
            final(self)@ == (WindowView { next_model: old(self)@.next_model + 1, ..old(self)@ }),
            same_shared(*final(self), *old(self)),
            final(self).tabs == old(self).tabs,
    {
        let r: u64 = self.next_model;
        self.next_model = r + 1;
        r
    }

    /// Moves the active tab into its slot and leaves it empty.
    fn snapshot_active_tab(&mut self)
        requires
            window_ok(old(self)@),
        ensures
            final(self)@ == (WindowView {
                active: PaneView { live: hollow(old(self)@.active.live), ..stored(
                    old(self)@.active,
                ) },
                ..old(self)@
            }),
            same_shared(*final(self), *old(self)),
    {
        let mut snap = TabSnapshot::empty(Some(self.rows_model));
        core::mem::swap(&mut snap.back_stack, &mut self.back_stack);
        core::mem::swap(&mut snap.forward_stack, &mut self.forward_stack);
        core::mem::swap(&mut snap.entries, &mut self.entries);
        core::mem::swap(&mut snap.all_entries, &mut self.all_entries);
        core::mem::swap(&mut snap.selected, &mut self.selected);
        snap.current = copy_place(&self.current);
        snap.anchor = self.anchor;
        snap.title = tab_title(&self.current);
        assert(snap@.0 =~= old(self)@.active.live);
        self.tabs.set(self.active_tab_idx, snap);
        assert(self@.active.tabs =~= stored(old(self)@.active).tabs);
        assert(self@.active.live =~= hollow(old(self)@.active.live));
    }

    /// Makes tab `idx` the active one from its slot.
    fn restore_active_tab(&mut self, idx: usize) -> (r: u64)
        requires
            idx < old(self).tabs@.len(),
            old(self).next_model < u64::MAX,
        ensures
            final(self)@ == opened(old(self)@, idx as int),
            r == final(self).rows_model,
            same_shared(*final(self), *old(self)),
    {
        let ghost before = self@;
        let model: u64 = match self.tabs[idx].rows_model {
            Some(m) => m,
            None => self.fresh_model(),
        };
        let slot = &mut self.tabs[idx];
        let mut taken = TabSnapshot::empty(Some(model));
        core::mem::swap(&mut taken, slot);
        let TabSnapshot {
            rows_model,
            back_stack,
            forward_stack,
            current,
            entries,
            all_entries,
            selected,
            anchor,
            title,
        } = taken;
        slot.current = copy_place(&current);
        slot.anchor = anchor;
        slot.title = title;
        self.rows_model = model;
        self.back_stack = back_stack;
        self.forward_stack = forward_stack;
        self.current = current;
        self.entries = entries;
        self.all_entries = all_entries;
        self.selected = selected;
        self.anchor = anchor;
        self.active_tab_idx = idx;
        assert(self@.active.live =~= opened(before, idx as int).active.live);
        assert(self@.active.tabs =~= opened(before, idx as int).active.tabs);
        model
    }

    /// Adds an empty tab to the active pane. Returns its index.
    pub fn new_tab(&mut self) -> (r: usize)
        requires
            window_ok(old(self)@),
            old(self).next_model < u64::MAX,
        ensures
            r == old(self)@.active.tabs.len(),
            final(self)@ == with_new_tab(old(self)@),
            window_ok(final(self)@),
            same_shared(*final(self), *old(self)),
    {
        let model: u64 = self.fresh_model();
        self.tabs.push(TabSnapshot::empty(Some(model)));
        assert(self@.active.tabs =~= with_new_tab(old(self)@).active.tabs);
        self.tabs.len() - 1
    }

    /// Closes a tab of the active pane, unless it is the last one. Where the
    /// active tab is closed, [`AppState::restore_after_close`] is to follow.
    pub fn close_tab(&mut self, idx: usize) -> (r: Option<usize>)
        requires
            window_ok(old(self)@),
        ensures
            r == if old(self)@.active.tabs.len() <= 1 || idx >= old(self)@.active.tabs.len() {
                None
            } else {
                Some(idx)
            },
            r is None ==> final(self)@ == old(self)@,
            r is Some ==> final(self)@ == with_tab_closed(old(self)@, idx as int),
            window_ok(final(self)@),
            same_shared(*final(self), *old(self)),
    {
        if self.tabs.len() <= 1 || idx >= self.tabs.len() {
            return None;
        }
        let need_switch: bool = idx == self.active_tab_idx;
        self.tabs.remove(idx);
        if need_switch {
            self.active_tab_idx = if idx == 0 {
                0
            } else {
                idx - 1
            };
        } else if self.active_tab_idx > idx {
            self.active_tab_idx = self.active_tab_idx - 1;
        }
        assert(self@.active.tabs =~= with_tab_closed(old(self)@, idx as int).active.tabs);
        Some(idx)
    }

    /// Makes another tab of the active pane the active one. Returns its row
    /// model; nothing happens where the tab is active already or missing.
    pub fn switch_tab(&mut self, idx: usize) -> (r: Option<u64>)
        requires
            window_ok(old(self)@),
            old(self).next_model < u64::MAX,
        ensures
            ({
                let w = old(self)@;
                if idx >= w.active.tabs.len() || idx == w.active.active {
                    r is None && final(self)@ == w
                } else {
                    r == Some(final(self).rows_model) && final(self)@ == switched(w, idx as int)
                }
            }),
            window_ok(final(self)@),
            same_shared(*final(self), *old(self)),
    {
        if idx >= self.tabs.len() || idx == self.active_tab_idx {
            return None;
        }
        let ghost w = self@;
        self.snapshot_active_tab();
        let ghost mid = self@;
        assert(mid.active.tabs == stored(w.active).tabs);
        let r: u64 = self.restore_active_tab(idx);
        assert(opened(mid, idx as int) =~= switched(w, idx as int));
        Some(r)
    }

    /// Makes a tab the active one after the active one was closed. Returns its
    /// row model.
    pub fn restore_after_close(&mut self, idx: usize) -> (r: Option<u64>)
        requires
            window_ok(old(self)@),
            old(self).next_model < u64::MAX,
        ensures
            ({
                let w = old(self)@;
                if idx >= w.active.tabs.len() {
                    r is None && final(self)@ == w
                } else {
                    r == Some(final(self).rows_model) && final(self)@ == opened(w, idx as int)
                }
            }),
            window_ok(final(self)@),
            same_shared(*final(self), *old(self)),
    {
        if idx >= self.tabs.len() {
            return None;
        }
        Some(self.restore_active_tab(idx))
    }

    /// Moves the active pane out, with all it holds.
    fn take_active_into_pane(&mut self) -> (r: PaneState)
        requires
            window_ok(old(self)@),
        ensures
            r@ == parked(old(self)@.active),
            final(self).inactive_pane == old(self).inactive_pane,
            final(self).active_is_right == old(self).active_is_right,
            final(self).next_model == old(self).next_model,
            same_shared(*final(self), *old(self)),
    {
        let mut slot = TabSnapshot::empty(Some(self.rows_model));
        slot.current = copy_place(&self.current);
        slot.anchor = self.anchor;
        slot.title = tab_title(&self.current);
        let ghost before = self@.active;
        assert(slot@.0 =~= hollow(before.live));
        let mut r = PaneState {
            rows_model: self.rows_model,
            back_stack: Vec::new(),
            forward_stack: Vec::new(),
            current: None,
            entries: Vec::new(),
            all_entries: Vec::new(),
            selected: HashSet::new(),
            anchor: self.anchor,
            tabs: Vec::new(),
            active_tab_idx: self.active_tab_idx,
        };
        core::mem::swap(&mut r.back_stack, &mut self.back_stack);
        core::mem::swap(&mut r.forward_stack, &mut self.forward_stack);
        core::mem::swap(&mut r.current, &mut self.current);
        core::mem::swap(&mut r.entries, &mut self.entries);
        core::mem::swap(&mut r.all_entries, &mut self.all_entries);
        core::mem::swap(&mut r.selected, &mut self.selected);
        core::mem::swap(&mut r.tabs, &mut self.tabs);
        r.tabs.set(r.active_tab_idx, slot);
        assert(r@.tabs =~= parked(before).tabs);
        assert(r@.live =~= before.live);
        r
    }

    /// Makes a pane the active one.
    fn restore_active_from_pane(&mut self, p: PaneState)
        ensures
            final(self)@.active == p@,
            final(self).inactive_pane == old(self).inactive_pane,
            final(self).active_is_right == old(self).active_is_right,
            final(self).next_model == old(self).next_model,
            same_shared(*final(self), *old(self)),
    {
        self.rows_model = p.rows_model;
        self.back_stack = p.back_stack;
        self.forward_stack = p.forward_stack;
        self.current = p.current;
        self.entries = p.entries;
        self.all_entries = p.all_entries;
        self.selected = p.selected;
        self.anchor = p.anchor;
        self.tabs = p.tabs;
        self.active_tab_idx = p.active_tab_idx;
        assert(self@.active =~= p@);
    }

    /// Whether a second pane is shown.
    pub fn split_active(&self) -> (r: bool)
        ensures
            r == (self@.other is Some),
    {
        self.inactive_pane.is_some()
    }

    /// Shows a second pane at `seed_dir`, or drops the pane that is not active.
    pub fn toggle_split(&mut self, seed_dir: Option<Location>)
        requires
            window_ok(old(self)@),
            old(self).next_model < u64::MAX,
        ensures
            final(self)@ == split_toggled(old(self)@, opt_place(seed_dir)),
            window_ok(final(self)@),
            same_shared(*final(self), *old(self)),
    {
        if self.inactive_pane.is_some() {
            self.inactive_pane = None;
            self.active_is_right = false;
            return ;
        }
        let ghost before = self@;
        let model: u64 = self.fresh_model();
        let mut tab = TabSnapshot::empty(Some(model));
        tab.title = tab_title(&seed_dir);
        let mut tabs: Vec<TabSnapshot> = Vec::new();
        tabs.push(tab);
        let pane = PaneState {
            rows_model: model,
            back_stack: Vec::new(),
            forward_stack: Vec::new(),
            current: seed_dir,
            entries: Vec::new(),
            all_entries: Vec::new(),
            selected: HashSet::new(),
            anchor: None,
            tabs,
            active_tab_idx: 0,
        };
        assert(pane@ =~= fresh_pane(before.next_model, opt_place(seed_dir)));
        self.inactive_pane = Some(pane);
    }

    /// Makes the other pane the active one. Returns its row model; nothing
    /// happens without a second pane.
    pub fn swap_active(&mut self) -> (r: Option<u64>)
        requires
            window_ok(old(self)@),
        ensures
            old(self)@.other is None ==> r is None && final(self)@ == old(self)@,
            old(self)@.other is Some ==> r == Some(final(self).rows_model) && final(self)@
                == swapped(old(self)@),
            window_ok(final(self)@),
            same_shared(*final(self), *old(self)),
    {
        let mut other: Option<PaneState> = None;
        core::mem::swap(&mut other, &mut self.inactive_pane);
        match other {
            None => None,
            Some(p) => {
                let now_inactive = self.take_active_into_pane();
                self.restore_active_from_pane(p);
                self.inactive_pane = Some(now_inactive);
                self.active_is_right = !self.active_is_right;
                Some(self.rows_model)
            },
        }
    }
}

/// A window with a new empty tab in the active pane.
pub open spec fn with_new_tab(w: WindowView) -> WindowView {
    WindowView {
        active: PaneView {
            tabs: w.active.tabs.push(
                (empty_tab(Some(w.next_model as u64)), Seq::<char>::empty()),
            ),
            ..w.active
        },
        next_model: w.next_model + 1,
        ..w
    }
}

/// A window without tab `idx` of the active pane.
pub open spec fn with_tab_closed(w: WindowView, idx: int) -> WindowView {
    WindowView {
        active: PaneView {
            tabs: w.active.tabs.remove(idx),
            active: active_after_close(w.active.active, idx),
            ..w.active
        },
        ..w
    }
}

/// A pane with one tab at a place that is not listed yet.
pub open spec fn fresh_pane(model: int, seed: Option<Place>) -> PaneView {
    PaneView {
        live: TabView { current: seed, ..empty_tab(Some(model as u64)) },
        tabs: seq![(empty_tab(Some(model as u64)), title_of(seed))],
        active: 0,
    }
}

/// A window with a second pane, or without it.
pub open spec fn split_toggled(w: WindowView, seed: Option<Place>) -> WindowView {
    if w.other is Some {
        WindowView { other: None, active_is_right: false, ..w }
    } else {
        WindowView {
            other: Some(fresh_pane(w.next_model, seed)),
            next_model: w.next_model + 1,
            ..w
        }
    }
}

/// A window whose other pane is active.
pub open spec fn swapped(w: WindowView) -> WindowView {
    WindowView {
        active: w.other->0,
        other: Some(parked(w.active)),
        active_is_right: !w.active_is_right,
        ..w
    }
}

// ---------------------------------------------------------------------------
// What holds of tabs and panes
// ---------------------------------------------------------------------------

/// Each pane has its own tabs, history and listing: swapping the panes back and
/// forth leaves both with what they showed, where they came from and what was
/// selected, and leaves every tab but the active ones untouched.
pub proof fn panes_keep_their_state(w: WindowView)
    requires
        window_ok(w),
        w.other is Some,
    ensures
        swapped(swapped(w)).active.live == w.active.live,
        swapped(swapped(w)).other->0.live == w.other->0.live,
        swapped(swapped(w)).active_is_right == w.active_is_right,
        swapped(swapped(w)).active.active == w.active.active,
        swapped(swapped(w)).other->0.active == w.other->0.active,
        swapped(swapped(w)).active.tabs.len() == w.active.tabs.len(),
        swapped(swapped(w)).other->0.tabs.len() == w.other->0.tabs.len(),
        forall|i: int|
            0 <= i < w.active.tabs.len() && i != w.active.active ==> swapped(
                swapped(w),
            ).active.tabs[i] == w.active.tabs[i],
        forall|i: int|
            0 <= i < w.other->0.tabs.len() && i != w.other->0.active ==> swapped(
                swapped(w),
            ).other->0.tabs[i] == w.other->0.tabs[i],
{
}

/// Switching to another tab and back restores what the tab showed.
pub proof fn tabs_keep_their_state(w: WindowView, idx: int)
    requires
        window_ok(w),
        0 <= idx < w.active.tabs.len(),
        idx != w.active.active,
        w.active.live.rows_model is Some,
    ensures
        switched(switched(w, idx), w.active.active).active.live == w.active.live,
        switched(switched(w, idx), w.active.active).active.active == w.active.active,
        switched(switched(w, idx), w.active.active).active.tabs[idx].0 == with_model(
            w.active.tabs[idx].0,
            w.next_model,
        ),
        switched(switched(w, idx), w.active.active).other == w.other,
{
}

/// Closing a tab that is not active leaves the active one active.
pub proof fn closing_another_tab_keeps_the_active_one(w: WindowView, idx: int)
    requires
        window_ok(w),
        0 <= idx < w.active.tabs.len(),
        idx != w.active.active,
    ensures
        with_tab_closed(w, idx).active.live == w.active.live,
        with_tab_closed(w, idx).active.tabs[with_tab_closed(w, idx).active.active]
            == w.active.tabs[w.active.active],
        with_tab_closed(w, idx).active.tabs.len() == w.active.tabs.len() - 1,
{
}

/// Showing and dropping the second pane leaves the active one as it was.
pub proof fn split_on_and_off(w: WindowView, seed: Option<Place>, other_seed: Option<Place>)
    requires
        w.other is None,
    ensures
        split_toggled(w, seed).active == w.active,
        split_toggled(split_toggled(w, seed), other_seed).active == w.active,
        split_toggled(split_toggled(w, seed), other_seed).other is None,
        !split_toggled(split_toggled(w, seed), other_seed).active_is_right,
{
}

} // verus!
