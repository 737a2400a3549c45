//! What the file commands do to a selection: the preview of a bulk rename, the
//! requests that open a dialog, and what is recorded when a command is done.
use crate::bulk_rename::{renamed, render_batch};
use crate::file_ops::{
    answered, is_unique_destination, unique_destination, valid_name, validate_name, FileOpError,
};
use crate::copy_run::path_views;
use crate::listing::{
    chosen_upto, gone_among, gone_rows, remove_paths_from_view, selected_entries, still_there,
};
use crate::state::AppState;
use crate::text::{contains_text, same_text, views};
use crate::types::{entry_views, EntryView, FileEntry};
use crate::undo::{copy_paths, UndoOp};
use crate::unix_path::{file_name, joined, lossy, lossy_text, parent, UnixPath};
use crate::user_dirs::opt_path;
use vstd::prelude::*;
use vstd::string::*;
use vstd::utf8::*;

verus! {

// ---------------------------------------------------------------------------
// Bulk rename
// ---------------------------------------------------------------------------

/// One line of the bulk rename preview.
#[derive(Debug)]
pub struct BulkRenameRow {
    pub original: String,
    pub new_name: String,
    pub conflict: bool,
}

/// The bulk rename preview.
#[derive(Debug)]
pub struct BulkPreview {
    pub rows: Vec<BulkRenameRow>,
    pub conflicts: usize,
}

/// The shown names of a list of entries.
pub open spec fn shown_names(es: Seq<EntryView>) -> Seq<Seq<char>> {
    es.map_values(|e: EntryView| e.display_name)
}

/// What is selected in the listing.
pub open spec fn chosen(s: AppState) -> Seq<EntryView> {
    chosen_upto(entry_views(s.entries@), s.selected@, s.entries@.len() as int)
}

/// Whether two of the names are the same, one of them at `i`.
pub open spec fn repeated(names: Seq<Seq<char>>, i: int) -> bool {
    exists|j: int| 0 <= j < names.len() && j != i && #[trigger] names[j] == names[i]
}

/// Whether a new name would take the place of an entry that is not renamed
/// itself.
pub open spec fn hits_other<F: Fn(&UnixPath) -> bool>(
    exists_at: F,
    dir: Option<Seq<u8>>,
    name: Seq<char>,
    originals: Seq<Seq<char>>,
) -> bool {
    &&& dir is Some
    &&& !originals.contains(name)
    &&& answered(exists_at, joined(dir->0, encode_utf8(name)), true)
}

/// Whether a new name would leave everything else in its place.
pub open spec fn hits_none<F: Fn(&UnixPath) -> bool>(
    exists_at: F,
    dir: Option<Seq<u8>>,
    name: Seq<char>,
    originals: Seq<Seq<char>>,
) -> bool {
    dir is None || originals.contains(name) || answered(
        exists_at,
        joined(dir->0, encode_utf8(name)),
        false,
    )
}

/// The directory of the first entry.
pub open spec fn first_parent(es: Seq<EntryView>) -> Option<Seq<u8>> {
    if es.len() > 0 {
        parent(es[0].path)
    } else {
        None
    }
}

/// How many of the first `n` lines are in conflict.
pub open spec fn conflicts_upto(rows: Seq<BulkRenameRow>, n: int) -> nat
    decreases n,
{
    if n <= 0 {
        0
    } else {
        conflicts_upto(rows, n - 1) + if rows[n - 1].conflict {
            1nat
        } else {
            0
        }
    }
}

fn names_of(es: &Vec<FileEntry>) -> (r: Vec<String>)
    ensures
        views(r@) == shown_names(entry_views(es@)),
{
    let ghost vs = entry_views(es@);
    let mut r: Vec<String> = Vec::new();
    let mut i: usize = 0;
    while i < es.len()
        invariant
            i <= es@.len(),
            vs == entry_views(es@),
            r@.len() == i,
            forall|k: int| 0 <= k < i ==> (#[trigger] r@[k])@ == vs[k].display_name,
        decreases es@.len() - i,
    {
        assert(vs[i as int] == es@[i as int]@);
        r.push(es[i].display_name.clone());
        i += 1;
    }
    assert(views(r@) =~= shown_names(vs));
    r
}

fn is_repeated(names: &Vec<String>, i: usize) -> (r: bool)
    requires
        i < names@.len(),
    ensures
        r == repeated(views(names@), i as int),
{
    let ghost ns = views(names@);
    let mut j: usize = 0;
    while j < names.len()
        invariant
            j <= names@.len(),
            i < names@.len(),
            ns == views(names@),
            forall|k: int| 0 <= k < j && k != i ==> #[trigger] ns[k] != ns[i as int],
        decreases names@.len() - j,
    {
        assert(ns[j as int] == names@[j as int]@);
        assert(ns[i as int] == names@[i as int]@);
        if j != i && same_text(names[j].as_str(), names[i].as_str()) {
            return true;
        }
        j += 1;
    }
    false
}

/// The new names that a pattern gives to the selection. A name is in conflict
/// if it is no valid name, if it is given more than once, or if something has
/// it that is not itself renamed.
pub fn publish_bulk_rename_preview<F: Fn(&UnixPath) -> bool>(
    state: &AppState,
    pattern: &str,
    exists_at: F,
) -> (r: BulkPreview)
    requires
        forall|q: UnixPath| call_requires(exists_at, (&q,)),
    ensures
        ({
            let names = shown_names(chosen(*state));
            let new_names = renamed(pattern@, names);
            let dir = first_parent(chosen(*state));
            &&& r.rows@.len() == names.len()
            &&& r.conflicts == conflicts_upto(r.rows@, r.rows@.len() as int)
            &&& forall|i: int|
                0 <= i < r.rows@.len() ==> {
                    let row = #[trigger] r.rows@[i];
                    &&& row.original@ == names[i]
                    &&& row.new_name@ == new_names[i]
                    &&& row.conflict ==> !valid_name(new_names[i]) || repeated(new_names, i)
                        || hits_other(exists_at, dir, new_names[i], names)
                    &&& !row.conflict ==> valid_name(new_names[i]) && !repeated(new_names, i)
                        && hits_none(exists_at, dir, new_names[i], names)
                }
        }),
{
    let entries = selected_entries(&state.entries, &state.selected);
    let names = names_of(&entries);
    let new_names = render_batch(pattern, &names);
    let ghost vs = views(names@);
    let ghost ns = views(new_names@);
    let dir: Option<UnixPath> = if entries.len() > 0 {
        assert(entry_views(entries@)[0] == entries@[0]@);
        entries[0].path.parent()
    } else {
        None
    };
    assert(ns.len() == vs.len());
    let mut rows: Vec<BulkRenameRow> = Vec::new();
    let mut conflicts: usize = 0;
    let mut i: usize = 0;
    while i < names.len()
        invariant
            i <= names@.len(),
            vs == views(names@),
            ns == views(new_names@),
            ns.len() == vs.len(),
            ns == renamed(pattern@, vs),
            opt_path(dir) == first_parent(chosen(*state)),
            forall|q: UnixPath| call_requires(exists_at, (&q,)),
            rows@.len() == i,
            conflicts <= i,
            conflicts == conflicts_upto(rows@, i as int),
            forall|k: int|
                0 <= k < i ==> {
                    let row = #[trigger] rows@[k];
                    let d = first_parent(chosen(*state));
                    &&& row.original@ == vs[k]
                    &&& row.new_name@ == ns[k]
                    &&& row.conflict ==> !valid_name(ns[k]) || repeated(ns, k) || hits_other(
                        exists_at,
                        d,
                        ns[k],
                        vs,
                    )
                    &&& !row.conflict ==> valid_name(ns[k]) && !repeated(ns, k) && hits_none(
                        exists_at,
                        d,
                        ns[k],
                        vs,
                    )
                },
        decreases names@.len() - i,
    {
        assert(vs[i as int] == names@[i as int]@);
        assert(ns[i as int] == new_names@[i as int]@);
        let new: &str = new_names[i].as_str();
        let conflict: bool = if validate_name(new).is_err() {
            true
        } else if is_repeated(&new_names, i) {
            true
        } else if contains_text(&names, new) {
            false
        } else {
            match &dir {
                Some(d) => exists_at(&d.join(new)),
                None => false,
            }
        };
        if conflict {
            conflicts += 1;
        }
        let ghost before = rows@;
        rows.push(
            BulkRenameRow {
                original: names[i].clone(),
                new_name: new_names[i].clone(),
                conflict,
            },
        );
        proof {
            lemma_conflicts_of_more(before, rows@, i as int);
        }
        i += 1;
    }
    BulkPreview { rows, conflicts }
}

proof fn lemma_conflicts_of_more(a: Seq<BulkRenameRow>, b: Seq<BulkRenameRow>, n: int)
    requires
        0 <= n <= a.len() <= b.len(),
        forall|k: int| 0 <= k < n ==> a[k] == b[k],
    ensures
        conflicts_upto(a, n) == conflicts_upto(b, n),
    decreases n,
{
    if n > 0 {
        lemma_conflicts_of_more(a, b, n - 1);
    }
}

/// Where no name is in conflict, the new names are all different, so no entry
/// takes the place of another.
pub proof fn names_without_conflict_differ(
    rows: Seq<BulkRenameRow>,
    new_names: Seq<Seq<char>>,
    i: int,
    j: int,
)
    requires
        0 <= i < j < rows.len(),
        rows.len() == new_names.len(),
        conflicts_upto(rows, rows.len() as int) == 0,
        forall|k: int|
            0 <= k < rows.len() && !(#[trigger] rows[k]).conflict ==> !repeated(new_names, k),
    ensures
        new_names[i] != new_names[j],
{
    lemma_no_conflict_at(rows, rows.len() as int, i);
    assert(!repeated(new_names, i));
}

proof fn lemma_no_conflict_at(rows: Seq<BulkRenameRow>, n: int, i: int)
    requires
        0 <= i < n <= rows.len(),
        conflicts_upto(rows, n) == 0,
    ensures
        !rows[i].conflict,
    decreases n,
{
    if i < n - 1 {
        lemma_no_conflict_at(rows, n - 1, i);
    }
}

/// The renames that a pattern asks for: each selected path with its new name.
pub fn bulk_rename_pairs(state: &AppState, pattern: &str) -> (r: Vec<(UnixPath, String)>)
    ensures
        ({
            let es = chosen(*state);
            let new_names = renamed(pattern@, shown_names(es));
            &&& r@.len() == es.len()
            &&& forall|i: int|
                0 <= i < r@.len() ==> (#[trigger] r@[i]).0@ == es[i].path && r@[i].1@
                    == new_names[i]
        }),
{
    let entries = selected_entries(&state.entries, &state.selected);
    let names = names_of(&entries);
    let new_names = render_batch(pattern, &names);
    let ghost es = entry_views(entries@);
    let ghost ns = views(new_names@);
    assert(ns.len() == es.len());
    let mut r: Vec<(UnixPath, String)> = Vec::new();
    let mut i: usize = 0;
    while i < entries.len()
        invariant
            i <= entries@.len(),
            es == entry_views(entries@),
            ns == views(new_names@),
            ns.len() == es.len(),
            r@.len() == i,
            forall|k: int|
                0 <= k < i ==> (#[trigger] r@[k]).0@ == es[k].path && r@[k].1@ == ns[k],
        decreases entries@.len() - i,
    {
        assert(es[i as int] == entries@[i as int]@);
        assert(ns[i as int] == new_names@[i as int]@);
        r.push((entries[i].path.clone(), new_names[i].clone()));
        i += 1;
    }
    r
}

/// How many of the first `n` commands succeeded.
pub open spec fn successes(results: Seq<bool>, n: int) -> nat
    decreases n,
{
    if n <= 0 {
        0
    } else {
        successes(results, n - 1) + if results[n - 1] {
            1nat
        } else {
            0
        }
    }
}

/// How many commands of a batch succeeded and how many failed.
pub fn tally(results: &Vec<bool>) -> (r: (usize, usize))
    ensures
        r.0 == successes(results@, results@.len() as int),
        r.0 + r.1 == results@.len(),
{
    let mut done: usize = 0;
    let mut failed: usize = 0;
    let mut i: usize = 0;
    while i < results.len()
        invariant
            i <= results@.len(),
            done == successes(results@, i as int),
            done + failed == i,
        decreases results@.len() - i,
    {
        if results[i] {
            done += 1;
        } else {
            failed += 1;
        }
        i += 1;
    }
    (done, failed)
}

// ---------------------------------------------------------------------------
// Requests
// ---------------------------------------------------------------------------

/// From so many files on, opening them all is confirmed first.
pub const BULK_OPEN_CONFIRM_AT: usize = 5;

/// What a request to open the selection leads to.
#[derive(Clone, Copy, Debug, PartialEq, Eq, Structural)]
pub enum OpenRequest {
    Nothing,
    /// So many files: ask first.
    Confirm(usize),
    OpenAll,
}

/// What a request to open so many files leads to.
pub fn request_open(count: usize) -> (r: OpenRequest)
    ensures
        r == if count == 0 {
            OpenRequest::Nothing
        } else if count >= 5 {
            OpenRequest::Confirm(count)
        } else {
            OpenRequest::OpenAll
        },
{
    if count == 0 {
        OpenRequest::Nothing
    } else if count >= BULK_OPEN_CONFIRM_AT {
        OpenRequest::Confirm(count)
    } else {
        OpenRequest::OpenAll
    }
}

/// How many entries a request to delete asks about; nothing without a
/// selection.
pub fn request_delete(state: &AppState) -> (r: Option<usize>)
    ensures
        r == if state.selected@.len() == 0 {
            None
        } else {
            Some(state.selected@.len() as usize)
        },
{
    let count: usize = state.selected.len();
    if count == 0 {
        None
    } else {
        Some(count)
    }
}

/// What a request to rename leads to.
#[derive(Debug)]
pub enum RenameRequest {
    Nothing,
    /// The dialog for one entry, with its name to start from.
    One(String),
    /// The dialog for several entries.
    Bulk,
}

/// What a request to rename the selection leads to.
pub fn request_rename(state: &AppState) -> (r: RenameRequest)
    ensures
        ({
            let es = chosen(*state);
            if state.selected@.len() >= 2 {
                r is Bulk
            } else if es.len() == 0 {
                r is Nothing
            } else {
                r matches RenameRequest::One(name) && name@ == es[0].display_name
            }
        }),
{
    if state.selected.len() >= 2 {
        return RenameRequest::Bulk;
    }
    let entries = selected_entries(&state.entries, &state.selected);
    if entries.len() == 0 {
        return RenameRequest::Nothing;
    }
    assert(entry_views(entries@)[0] == entries@[0]@);
    RenameRequest::One(entries[0].display_name.clone())
}

/// The entry that is renamed when the dialog for one entry is confirmed.
pub fn rename_source(state: &AppState) -> (r: Option<UnixPath>)
    ensures
        opt_path(r) == if chosen(*state).len() > 0 {
            Some(chosen(*state)[0].path)
        } else {
            None
        },
{
    let entries = selected_entries(&state.entries, &state.selected);
    if entries.len() == 0 {
        return None;
    }
    assert(entry_views(entries@)[0] == entries@[0]@);
    Some(entries[0].path.clone())
}

/// The name that is suggested for a new file: one that is free in the
/// directory.
pub fn new_file_suggestion<F: Fn(&UnixPath) -> bool>(dir: &UnixPath, occupied: F) -> (r: String)
    requires
        forall|q: UnixPath| call_requires(occupied, (&q,)),
    ensures
        exists|p: Seq<u8>|
            #[trigger] is_unique_destination(occupied, dir@, "untitled.txt"@, p) && r@ == match file_name(
                p,
            ) {
                Some(n) => lossy(n),
                None => "untitled.txt"@,
            },
{
    let p = unique_destination(dir, "untitled.txt", occupied);
    assert(is_unique_destination(occupied, dir@, "untitled.txt"@, p@));
    match p.file_name() {
        Some(n) => lossy_text(&n),
        None => "untitled.txt".to_owned(),
    }
}

/// Where a new file of a name is made: at the first free place for the name.
pub fn new_file_path<F: Fn(&UnixPath) -> bool>(
    dir: &UnixPath,
    name: &str,
    occupied: F,
) -> (r: Result<UnixPath, FileOpError>)
    requires
        forall|q: UnixPath| call_requires(occupied, (&q,)),
    ensures
        r is Ok == valid_name(name@),
        r matches Ok(p) ==> is_unique_destination(occupied, dir@, name@, p@),
        r matches Err(e) ==> e matches FileOpError::InvalidName(n) && n@ == name@,
{
    match validate_name(name) {
        Ok(_) => Ok(unique_destination(dir, name, occupied)),
        Err(e) => Err(e),
    }
}

// ---------------------------------------------------------------------------
// When a command is done
// ---------------------------------------------------------------------------

/// Records that something was made. Nothing is recorded of a failure.
pub fn created(state: &mut AppState, path: Option<UnixPath>, is_dir: bool)
    ensures
        match path {
            Some(p) => final(state).undo.undo@ == old(state).undo.undo@.push(
                UndoOp::Create { path: p, is_dir },
            ) && final(state).undo.redo@ == Seq::<UndoOp>::empty(),
            None => *final(state) == *old(state),
        },
        final(state)@ == old(state)@,
        *final(state) == (AppState { undo: final(state).undo, ..*old(state) }),
{
    match path {
        Some(p) => {
            state.undo.record(UndoOp::Create { path: p, is_dir });
        },
        None => {},
    }
}

/// Records that an entry was renamed. Nothing is recorded of a failure.
pub fn renamed_to(state: &mut AppState, from: UnixPath, to: Option<UnixPath>)
    ensures
        match to {
            Some(t) => final(state).undo.undo@ == old(state).undo.undo@.push(
                UndoOp::Rename { from, to: t },
            ) && final(state).undo.redo@ == Seq::<UndoOp>::empty(),
            None => *final(state) == *old(state),
        },
        final(state)@ == old(state)@,
        *final(state) == (AppState { undo: final(state).undo, ..*old(state) }),
{
    match to {
        Some(t) => {
            state.undo.record(UndoOp::Rename { from, to: t });
        },
        None => {},
    }
}

/// After a move to the trash: records it and takes out of the listing what is
/// gone. Returns the removed rows, the last one first.
pub fn trashed(state: &mut AppState, paths: &Vec<UnixPath>, exists_now: &Vec<bool>) -> (r: Vec<
    usize,
>)
    requires
        paths@.len() == exists_now@.len(),
    ensures
        final(state).undo.redo@.len() == 0,
        final(state).undo.undo@.len() == old(state).undo.undo@.len() + 1,
        final(state).undo.undo@.drop_last() == old(state).undo.undo@,
        (final(state).undo.undo@.last() matches UndoOp::Trash { originals } && path_views(
            originals@,
        ) == path_views(paths@)),
        ({
            let gone = gone_among(path_views(paths@), exists_now@, paths@.len() as int);
            &&& r@ == gone_rows(
                entry_views(old(state).entries@),
                gone,
                old(state).entries@.len() as int,
            )
            &&& r@.len() == 0 ==> *final(state) == (AppState {
                undo: final(state).undo,
                ..*old(state)
            })
            &&& r@.len() > 0 ==> {
                let keep = still_there(gone);
                &&& entry_views(final(state).entries@) == entry_views(
                    old(state).entries@,
                ).filter(keep)
                &&& entry_views(final(state).all_entries@) == entry_views(
                    old(state).all_entries@,
                ).filter(keep)
                &&& final(state).selected@ == Set::<usize>::empty()
                &&& final(state).anchor is None
            }
        }),
        *final(state) == (AppState {
            undo: final(state).undo,
            entries: final(state).entries,
            all_entries: final(state).all_entries,
            selected: final(state).selected,
            anchor: final(state).anchor,
            ..*old(state)
        }),
{
    let ghost before = state.undo.undo@;
    state.undo.record(UndoOp::Trash { originals: copy_paths(paths) });
    assert(state.undo.undo@.drop_last() =~= before);
    remove_paths_from_view(state, paths, exists_now)
}

} // verus!
