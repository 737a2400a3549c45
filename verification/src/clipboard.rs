//! Cutting, copying, pasting and dragging: what is transferred where, how
//! conflicts are answered and what is left to do after a transfer.
use crate::copy_progress::{Conflict, CopyError, CopyOutcome, Op, Progress};
use crate::copy_run::path_views;
use crate::format_util::{human_size, size_text};
use crate::icon_map::{entry_icon, icon_for_entry};
use crate::listing::{chosen_upto, contains_path, has_path, selected_entries};
use crate::num_text::{decimal, decimal_text};
use crate::state::AppState;
use crate::types::{entry_views, EntryView, FileEntry, FileType, Location, Place};
use crate::undo::{copy_paths, UndoOp};
use crate::unix_path::{components, file_name, lossy, lossy_text, parent, UnixPath};
use crate::user_dirs::{opt_path, UserDirs};
use vstd::prelude::*;
use vstd::std_specs::hash::*;
use vstd::string::*;
use vstd::utf8::*;

verus! {

broadcast use group_hash_axioms;

// ---------------------------------------------------------------------------
// What is selected
// ---------------------------------------------------------------------------

/// The paths of the selected search results among the first `n`.
pub open spec fn hits_upto(paths: Seq<Seq<u8>>, selected: Seq<bool>, n: int) -> Seq<Seq<u8>>
    decreases n,
{
    if n <= 0 {
        Seq::empty()
    } else if selected[n - 1] && n - 1 < paths.len() {
        hits_upto(paths, selected, n - 1).push(paths[n - 1])
    } else {
        hits_upto(paths, selected, n - 1)
    }
}

/// The paths of a list of entries.
pub open spec fn entry_paths(es: Seq<EntryView>) -> Seq<Seq<u8>> {
    es.map_values(|e: EntryView| e.path)
}

/// The selected paths, among the search results or in the listing.
pub open spec fn selection(s: AppState, in_search: bool, rows: Seq<bool>) -> Seq<Seq<u8>> {
    if in_search {
        hits_upto(path_views(s.search_hit_paths@), rows, rows.len() as int)
    } else {
        entry_paths(
            chosen_upto(entry_views(s.entries@), s.selected@, s.entries@.len() as int),
        )
    }
}

/// The selected paths, in order. Among the search results, `rows` says which
/// are selected.
pub fn selected_paths(state: &AppState, in_search: bool, rows: &Vec<bool>) -> (r: Vec<UnixPath>)
    ensures
        path_views(r@) == selection(*state, in_search, rows@),
{
    let mut r: Vec<UnixPath> = Vec::new();
    let mut i: usize = 0;
    if in_search {
        let ghost ps = path_views(state.search_hit_paths@);
        assert(path_views(r@) =~= hits_upto(ps, rows@, 0));
        while i < rows.len()
            invariant
                i <= rows@.len(),
                ps == path_views(state.search_hit_paths@),
                path_views(r@) == hits_upto(ps, rows@, i as int),
            decreases rows@.len() - i,
        {
            if rows[i] && i < state.search_hit_paths.len() {
                let ghost before = r@;
                r.push(state.search_hit_paths[i].clone());
                assert(path_views(r@) =~= path_views(before).push(ps[i as int]));
            }
            i += 1;
        }
        return r;
    }
    let chosen = selected_entries(&state.entries, &state.selected);
    let ghost cs = entry_views(chosen@);
    while i < chosen.len()
        invariant
            i <= chosen@.len(),
            cs == entry_views(chosen@),
            r@.len() == i,
            forall|k: int| 0 <= k < i ==> (#[trigger] r@[k])@ == cs[k].path,
        decreases chosen@.len() - i,
    {
        assert(cs[i as int] == chosen@[i as int]@);
        r.push(chosen[i].path.clone());
        i += 1;
    }
    assert(path_views(r@) =~= entry_paths(cs));
    r
}

/// The texts of the first `n` paths, one to a line.
pub open spec fn path_lines(paths: Seq<Seq<u8>>, n: int) -> Seq<char>
    decreases n,
{
    if n <= 0 {
        Seq::empty()
    } else if n == 1 {
        lossy(paths[0])
    } else {
        path_lines(paths, n - 1) + "\n"@ + lossy(paths[n - 1])
    }
}

/// The text that copying paths puts on the system clipboard: one path to a
/// line.
pub fn copy_path_text(paths: &Vec<UnixPath>) -> (r: String)
    ensures
        r@ == path_lines(path_views(paths@), paths@.len() as int),
{
    let ghost ps = path_views(paths@);
    let mut s = String::new();
    let mut i: usize = 0;
    while i < paths.len()
        invariant
            i <= paths@.len(),
            ps == path_views(paths@),
            s@ == path_lines(ps, i as int),
        decreases paths@.len() - i,
    {
        assert(ps[i as int] == paths@[i as int]@);
        if i > 0 {
            s.append("\n");
            s.append(paths[i].display().as_str());
        } else {
            s = paths[i].display();
        }
        i += 1;
    }
    s
}

/// Cuts or copies paths. Returns whether there was something to take.
pub fn put_into_clipboard(state: &mut AppState, paths: Vec<UnixPath>, cut: bool) -> (r: bool)
    ensures
        r == (paths@.len() > 0),
        r ==> final(state).clipboard.paths == paths && final(state).clipboard.cut == cut,
        !r ==> *final(state) == *old(state),
        final(state)@ == old(state)@,
        *final(state) == (AppState { clipboard: final(state).clipboard, ..*old(state) }),
{
    if paths.len() == 0 {
        return false;
    }
    state.clipboard.paths = paths;
    state.clipboard.cut = cut;
    true
}

// ---------------------------------------------------------------------------
// Pasting
// ---------------------------------------------------------------------------

/// Copying or moving paths into a directory.
#[derive(Debug)]
pub struct Transfer {
    pub paths: Vec<UnixPath>,
    pub dest: UnixPath,
    pub op: Op,
}

/// The current directory, if a local one is shown.
pub fn current_dir(state: &AppState) -> (r: Option<UnixPath>)
    ensures
        opt_path(r) == match state@.active.live.current {
            Some(Place::Local(b)) => Some(b),
            _ => None,
        },
{
    match &state.current {
        Some(Location::Local(p)) => Some(p.clone()),
        _ => None,
    }
}

/// Where pasting goes: into the only selected folder, unless that is a link or
/// is itself to be pasted, else into the current directory.
pub open spec fn paste_place(s: AppState, paths: Seq<Seq<u8>>) -> Option<Seq<u8>> {
    let chosen = chosen_upto(entry_views(s.entries@), s.selected@, s.entries@.len() as int);
    let here = match s@.active.live.current {
        Some(Place::Local(b)) => Some(b),
        _ => None,
    };
    if s.selected@.len() == 1 && chosen.len() == 1 && chosen[0].file_type == FileType::Directory
        && !chosen[0].is_symlink && !has_path(paths, chosen[0].path) {
        Some(chosen[0].path)
    } else {
        here
    }
}

/// Where pasting goes.
pub fn paste_target(state: &AppState, paths: &Vec<UnixPath>) -> (r: Option<UnixPath>)
    ensures
        opt_path(r) == paste_place(*state, path_views(paths@)),
{
    if state.selected.len() == 1 {
        let chosen = selected_entries(&state.entries, &state.selected);
        let ghost cs = entry_views(chosen@);
        if chosen.len() == 1 {
            let e = &chosen[0];
            assert(cs[0] == e@);
            if e.is_dir() && !e.is_symlink && !contains_path(paths, &e.path) {
                return Some(e.path.clone());
            }
        }
    }
    current_dir(state)
}

/// Pastes what was cut or copied. What was cut is taken off the clipboard.
pub fn do_paste(state: &mut AppState) -> (r: Option<Transfer>)
    ensures
        ({
            let paths = path_views(old(state).clipboard.paths@);
            let dest = paste_place(*old(state), paths);
            if paths.len() == 0 || dest is None {
                r is None && *final(state) == *old(state)
            } else {
                &&& r matches Some(t) && path_views(t.paths@) == paths && Some(t.dest@) == dest
                    && t.op == if old(state).clipboard.cut {
                    Op::Move
                } else {
                    Op::Copy
                }
                &&& old(state).clipboard.cut ==> final(state).clipboard.paths@.len() == 0
                    && !final(state).clipboard.cut
                &&& !old(state).clipboard.cut ==> final(state).clipboard == old(state).clipboard
            }
        }),
        final(state)@ == old(state)@,
        *final(state) == (AppState { clipboard: final(state).clipboard, ..*old(state) }),
{
    if state.clipboard.paths.len() == 0 {
        return None;
    }
    let dest = match paste_target(state, &state.clipboard.paths) {
        Some(d) => d,
        None => {
            return None;
        },
    };
    let paths = copy_paths(&state.clipboard.paths);
    let cut: bool = state.clipboard.cut;
    if cut {
        state.clipboard.paths = Vec::new();
        state.clipboard.cut = false;
    }
    Some(
        Transfer {
            paths,
            dest,
            op: if cut {
                Op::Move
            } else {
                Op::Copy
            },
        },
    )
}

// ---------------------------------------------------------------------------
// Dragging
// ---------------------------------------------------------------------------

/// What is shown beside the pointer during a drag.
#[derive(Debug)]
pub struct DragInfo {
    pub count: usize,
    pub label: String,
    pub icon: String,
}

/// Begins to drag a row, with the whole selection if the row is part of it.
/// Search results are not dragged.
pub fn start_drag(state: &mut AppState, in_search: bool, idx: i32, dirs: &UserDirs) -> (r: Option<
    DragInfo,
>)
    ensures
        ({
            let es = entry_views(old(state).entries@);
            let sel = old(state).selected@;
            if in_search || idx < 0 || idx >= es.len() {
                r is None && *final(state) == *old(state)
            } else if sel.contains(idx as usize) && sel.len() > 1 {
                let chosen = chosen_upto(es, sel, es.len() as int);
                if chosen.len() == 0 {
                    r is None && *final(state) == *old(state)
                } else {
                    &&& path_views(final(state).drag_paths@) == entry_paths(chosen)
                    &&& r matches Some(d) && d.count == chosen.len() && d.label@ == decimal(
                        chosen.len(),
                    ) + " items"@ && d.icon@ == "file-generic"@
                }
            } else {
                &&& path_views(final(state).drag_paths@) == seq![es[idx as int].path]
                &&& r matches Some(d) && d.count == 1 && d.label@ == es[idx as int].display_name
                    && d.icon@ == entry_icon(es[idx as int], *dirs)
            }
        }),
        final(state)@ == old(state)@,
        *final(state) == (AppState { drag_paths: final(state).drag_paths, ..*old(state) }),
{
    if in_search || idx < 0 || idx as usize >= state.entries.len() {
        return None;
    }
    let i: usize = idx as usize;
    let ghost es = entry_views(state.entries@);
    assert(es[i as int] == state.entries@[i as int]@);
    if state.selected.contains(&i) && state.selected.len() > 1 {
        let none: Vec<bool> = Vec::new();
        let paths = selected_paths(state, false, &none);
        let count: usize = paths.len();
        assert(path_views(paths@).len() == count);
        if count == 0 {
            return None;
        }
        let mut label = decimal_text(count as u64);
        label.append(" items");
        state.drag_paths = paths;
        return Some(DragInfo { count, label, icon: "file-generic".to_owned() });
    }
    let label: String = state.entries[i].display_name.clone();
    let icon: String = icon_for_entry(&state.entries[i], dirs).to_owned();
    let mut paths: Vec<UnixPath> = Vec::new();
    paths.push(state.entries[i].path.clone());
    assert(path_views(paths@) =~= seq![es[i as int].path]);
    state.drag_paths = paths;
    Some(DragInfo { count: 1, label, icon })
}

/// Where a drag ended.
#[derive(Debug)]
pub struct DropPlace {
    /// A place or tab under the pointer; empty if there is none.
    pub path: String,
    /// Whether that path is a directory.
    pub path_is_dir: bool,
    /// The row under the pointer, or a negative number.
    pub row: i32,
    /// Whether the row is in the active pane.
    pub in_active_pane: bool,
}

/// The folder at a row.
pub open spec fn folder_at(es: Seq<FileEntry>, row: i32) -> Option<Seq<u8>> {
    if 0 <= row < es.len() && es[row as int].file_type == FileType::Directory {
        Some(es[row as int].path@)
    } else {
        None
    }
}

/// The folder that a drag ended over: a place or tab wins over a row.
pub open spec fn drop_folder(s: AppState, d: DropPlace) -> Option<Seq<u8>> {
    if d.path@.len() > 0 {
        if d.path_is_dir {
            Some(encode_utf8(d.path@))
        } else {
            None
        }
    } else if d.in_active_pane {
        folder_at(s.entries@, d.row)
    } else {
        match s.inactive_pane {
            Some(p) => folder_at(p.entries@, d.row),
            None => None,
        }
    }
}

fn folder_of_row(entries: &Vec<FileEntry>, row: i32) -> (r: Option<UnixPath>)
    ensures
        opt_path(r) == folder_at(entries@, row),
{
    if row >= 0 && (row as usize) < entries.len() {
        let e = &entries[row as usize];
        if e.is_dir() {
            return Some(e.path.clone());
        }
    }
    None
}

/// The folder that a drag ended over.
pub fn drop_target(state: &AppState, d: &DropPlace) -> (r: Option<UnixPath>)
    ensures
        opt_path(r) == drop_folder(*state, *d),
{
    if !d.path.as_str().is_empty() {
        if d.path_is_dir {
            return Some(UnixPath::new(d.path.as_str()));
        }
        return None;
    }
    if d.in_active_pane {
        folder_of_row(&state.entries, d.row)
    } else {
        match &state.inactive_pane {
            Some(p) => folder_of_row(&p.entries, d.row),
            None => None,
        }
    }
}

/// Whether a path can be dropped on a folder: not on itself, not into what is
/// below it, and not where it lies already.
pub open spec fn droppable(src: Seq<u8>, dest: Seq<u8>) -> bool {
    &&& components(dest) != components(src)
    &&& !components(src).is_prefix_of(components(dest))
    &&& !(parent(src) matches Some(p) && components(p) == components(dest))
}

/// The paths among the first `n` that can be dropped on a folder.
pub open spec fn droppable_upto(paths: Seq<Seq<u8>>, dest: Seq<u8>, n: int) -> Seq<Seq<u8>>
    decreases n,
{
    if n <= 0 {
        Seq::empty()
    } else if droppable(paths[n - 1], dest) {
        droppable_upto(paths, dest, n - 1).push(paths[n - 1])
    } else {
        droppable_upto(paths, dest, n - 1)
    }
}

fn is_droppable(src: &UnixPath, dest: &UnixPath) -> (r: bool)
    ensures
        r == droppable(src@, dest@),
{
    if dest.same(src) || dest.starts_with(src) {
        return false;
    }
    match src.parent() {
        Some(p) => !p.same(dest),
        None => true,
    }
}

/// The paths that can be dropped on a folder.
pub fn drop_sources(paths: &Vec<UnixPath>, dest: &UnixPath) -> (r: Vec<UnixPath>)
    ensures
        path_views(r@) == droppable_upto(path_views(paths@), dest@, paths@.len() as int),
{
    let ghost ps = path_views(paths@);
    let mut r: Vec<UnixPath> = Vec::new();
    let mut i: usize = 0;
    assert(path_views(r@) =~= droppable_upto(ps, dest@, 0));
    while i < paths.len()
        invariant
            i <= paths@.len(),
            ps == path_views(paths@),
            path_views(r@) == droppable_upto(ps, dest@, i as int),
        decreases paths@.len() - i,
    {
        assert(ps[i as int] == paths@[i as int]@);
        if is_droppable(&paths[i], dest) {
            let ghost before = r@;
            r.push(paths[i].clone());
            assert(path_views(r@) =~= path_views(before).push(ps[i as int]));
        }
        i += 1;
    }
    r
}

/// Ends a drag. `place` is where it ended, if over something. What was dragged
/// is forgotten in any case.
pub fn drop_dragged(state: &mut AppState, place: &Option<DropPlace>, copy: bool) -> (r: Option<
    Transfer,
>)
    ensures
        final(state).drag_paths@.len() == 0,
        ({
            let dragged = path_views(old(state).drag_paths@);
            let dest = match *place {
                Some(d) => drop_folder(*old(state), d),
                None => None,
            };
            let srcs = droppable_upto(dragged, dest->0, dragged.len() as int);
            if dest is None || srcs.len() == 0 {
                r is None
            } else {
                r matches Some(t) && path_views(t.paths@) == srcs && Some(t.dest@) == dest && t.op
                    == if copy {
                    Op::Copy
                } else {
                    Op::Move
                }
            }
        }),
        final(state)@ == old(state)@,
        *final(state) == (AppState { drag_paths: final(state).drag_paths, ..*old(state) }),
{
    let mut dragged: Vec<UnixPath> = Vec::new();
    core::mem::swap(&mut dragged, &mut state.drag_paths);
    match place {
        Some(d) => {
            match drop_target(state, d) {
                Some(dest) => {
                    let paths = drop_sources(&dragged, &dest);
                    assert(path_views(paths@).len() == paths@.len());
                    if paths.len() == 0 {
                        return None;
                    }
                    Some(
                        Transfer {
                            paths,
                            dest,
                            op: if copy {
                                Op::Copy
                            } else {
                                Op::Move
                            },
                        },
                    )
                },
                None => None,
            }
        },
        None => None,
    }
}

/// Dropping never takes a folder into itself or into what is below it.
pub proof fn nothing_is_dropped_into_itself(
    paths: Seq<Seq<u8>>,
    dest: Seq<u8>,
    n: int,
    i: int,
)
    requires
        0 <= n <= paths.len(),
        0 <= i < droppable_upto(paths, dest, n).len(),
    ensures
        !components(droppable_upto(paths, dest, n)[i]).is_prefix_of(components(dest)),
        paths.contains(droppable_upto(paths, dest, n)[i]),
    decreases n,
{
    if n > 0 {
        let before = droppable_upto(paths, dest, n - 1);
        if i < before.len() {
            nothing_is_dropped_into_itself(paths, dest, n - 1, i);
        } else {
            assert(paths[n - 1] == droppable_upto(paths, dest, n)[i]);
        }
    }
}

// ---------------------------------------------------------------------------
// Conflicts
// ---------------------------------------------------------------------------

/// The decision with a number of the dialog.
pub fn conflict_from_code(code: i32) -> (r: Conflict)
    ensures
        r == if code == 0 {
            Conflict::Overwrite
        } else if code == 1 {
            Conflict::Skip
        } else if code == 2 {
            Conflict::KeepBoth
        } else {
            Conflict::Cancel
        },
{
    if code == 0 {
        Conflict::Overwrite
    } else if code == 1 {
        Conflict::Skip
    } else if code == 2 {
        Conflict::KeepBoth
    } else {
        Conflict::Cancel
    }
}

/// Answers conflicts: the user is asked until a decision is to hold for all.
pub struct ConflictResolver {
    pub apply_all: Option<Conflict>,
}

impl ConflictResolver {
    pub fn new() -> (r: Self)
        ensures
            r.apply_all is None,
    {
        ConflictResolver { apply_all: None }
    }

    /// The decision that holds for all, if there is one. Otherwise the user is
    /// to be asked.
    pub fn decided(&self) -> (r: Option<Conflict>)
        ensures
            r == self.apply_all,
    {
        self.apply_all
    }

    /// Takes the user's answer: a decision and whether it holds for all. No
    /// answer stops the transfer.
    pub fn answered(&mut self, answer: Option<(Conflict, bool)>) -> (r: Conflict)
        requires
            old(self).apply_all is None,
        ensures
            match answer {
                Some((d, all)) => r == d && final(self).apply_all == if all {
                    Some(d)
                } else {
                    None
                },
                None => r == Conflict::Cancel && final(self).apply_all is None,
            },
    {
        match answer {
            Some((d, all)) => {
                if all {
                    self.apply_all = Some(d);
                }
                d
            },
            None => Conflict::Cancel,
        }
    }
}

/// The name under which a conflict is shown.
pub fn conflict_name(path: &UnixPath) -> (r: String)
    ensures
        r@ == match file_name(path@) {
            Some(n) => lossy(n),
            None => Seq::<char>::empty(),
        },
{
    match path.file_name() {
        Some(n) => lossy_text(&n),
        None => String::new(),
    }
}

// ---------------------------------------------------------------------------
// Progress and the end of a transfer
// ---------------------------------------------------------------------------

/// What a worker says.
#[derive(Debug)]
pub enum ProgressMsg {
    Update(Progress),
    /// A destination exists; the worker waits for an answer.
    Conflict(UnixPath),
    Done,
}

/// What the window takes from the messages that arrived together: the latest
/// progress, the latest conflict and whether the worker is done.
#[derive(Debug)]
pub struct Drained {
    pub latest: Option<Progress>,
    pub conflict: Option<String>,
    pub done: bool,
}

/// The latest progress among the first `n` messages.
pub open spec fn latest_upto(msgs: Seq<ProgressMsg>, n: int) -> Option<Progress>
    decreases n,
{
    if n <= 0 {
        None
    } else {
        match msgs[n - 1] {
            ProgressMsg::Update(p) => Some(p),
            _ => latest_upto(msgs, n - 1),
        }
    }
}

/// The latest conflict among the first `n` messages.
pub open spec fn conflict_upto(msgs: Seq<ProgressMsg>, n: int) -> Option<Seq<char>>
    decreases n,
{
    if n <= 0 {
        None
    } else {
        match msgs[n - 1] {
            ProgressMsg::Conflict(p) => Some(
                match file_name(p@) {
                    Some(x) => lossy(x),
                    None => Seq::<char>::empty(),
                },
            ),
            _ => conflict_upto(msgs, n - 1),
        }
    }
}

/// Takes the messages that arrived together, in order.
pub fn drain_progress(msgs: Vec<ProgressMsg>) -> (r: Drained)
    ensures
        r.latest == latest_upto(msgs@, msgs@.len() as int),
        crate::text::opt_view(r.conflict) == conflict_upto(msgs@, msgs@.len() as int),
        r.done == exists|i: int| 0 <= i < msgs@.len() && (#[trigger] msgs@[i]) is Done,
{
    let mut latest: Option<Progress> = None;
    let mut conflict: Option<String> = None;
    let mut done: bool = false;
    let ghost all = msgs@;
    for m in it: msgs
        invariant
            it.seq() == all,
            latest == latest_upto(all, it.index() as int),
            crate::text::opt_view(conflict) == conflict_upto(all, it.index() as int),
            done == exists|i: int| 0 <= i < it.index() && (#[trigger] all[i]) is Done,
    {
        assert(all[it.index() as int] == m);
        match m {
            ProgressMsg::Update(p) => {
                latest = Some(p);
            },
            ProgressMsg::Conflict(p) => {
                conflict = Some(conflict_name(&p));
            },
            ProgressMsg::Done => {
                done = true;
            },
        }
    }
    Drained { latest, conflict, done }
}

/// What the progress dialog shows.
#[derive(Debug)]
pub struct ProgressData {
    pub visible: bool,
    pub op: String,
    pub current: String,
    pub files_done: u64,
    pub files_total: u64,
    pub bytes_done: u64,
    pub bytes_total: u64,
    pub bytes_text: String,
    pub paused: bool,
}

/// What the progress dialog shows of a transfer. `op` and `of` are words in the
/// user's language.
pub fn progress_data(p: &Progress, op: &str, of: &str, paused: bool) -> (r: ProgressData)
    ensures
        r.visible,
        r.op@ == op@,
        r.current@ == match file_name(p.current@) {
            Some(n) => lossy(n),
            None => Seq::<char>::empty(),
        },
        r.files_done == p.files_done,
        r.files_total == p.files_total,
        r.bytes_done == p.bytes_done,
        r.bytes_total == p.bytes_total,
        r.bytes_text@ == size_text(p.bytes_done as nat) + " "@ + of@ + " "@ + size_text(
            p.bytes_total as nat,
        ),
        r.paused == paused,
{
    let mut bytes_text = human_size(p.bytes_done);
    bytes_text.append(" ");
    bytes_text.append(of);
    bytes_text.append(" ");
    bytes_text.append(human_size(p.bytes_total).as_str());
    ProgressData {
        visible: true,
        op: op.to_owned(),
        current: conflict_name(&p.current),
        files_done: p.files_done,
        files_total: p.files_total,
        bytes_done: p.bytes_done,
        bytes_total: p.bytes_total,
        bytes_text,
        paused,
    }
}

/// The second paths of a list of pairs.
pub open spec fn seconds(v: Seq<(UnixPath, UnixPath)>) -> Seq<Seq<u8>> {
    v.map_values(|p: (UnixPath, UnixPath)| p.1@)
}

/// Records a transfer for undo, unless nothing was transferred. Returns the
/// failures that the user is to be told of.
pub fn finish_transfer(state: &mut AppState, op: Op, outcome: CopyOutcome) -> (r: Vec<CopyError>)
    ensures
        r == outcome.errors,
        outcome.dests@.len() == 0 ==> final(state).undo == old(state).undo,
        outcome.dests@.len() > 0 ==> {
            &&& final(state).undo.redo@.len() == 0
            &&& final(state).undo.undo@.len() == old(state).undo.undo@.len() + 1
            &&& final(state).undo.undo@.drop_last() == old(state).undo.undo@
            &&& match op {
                Op::Copy => final(state).undo.undo@.last() matches UndoOp::Copy { dests }
                    && path_views(dests@) == seconds(outcome.dests@),
                Op::Move => final(state).undo.undo@.last() == (UndoOp::Move {
                    moves: outcome.dests,
                }),
            }
        },
        final(state)@ == old(state)@,
        *final(state) == (AppState { undo: final(state).undo, ..*old(state) }),
{
    let CopyOutcome { succeeded, errors, cancelled, skipped, dests } = outcome;
    if dests.len() > 0 {
        let record: UndoOp = match op {
            Op::Copy => {
                let mut made: Vec<UnixPath> = Vec::new();
                let mut i: usize = 0;
                while i < dests.len()
                    invariant
                        i <= dests@.len(),
                        made@.len() == i,
                        forall|k: int| 0 <= k < i ==> (#[trigger] made@[k])@ == dests@[k].1@,
                    decreases dests@.len() - i,
                {
                    made.push(dests[i].1.clone());
                    i += 1;
                }
                assert(path_views(made@) =~= seconds(dests@));
                UndoOp::Copy { dests: made }
            },
            Op::Move => UndoOp::Move { moves: dests },
        };
        let ghost before = state.undo.undo@;
        state.undo.record(record);
        assert(state.undo.undo@.drop_last() =~= before);
    }
    errors
}

} // verus!
