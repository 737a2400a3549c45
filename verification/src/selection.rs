//! Selecting rows: by click, by key, by rubber band, and what the status bar
//! and the menus say of the selection.
use crate::archive::{archive_entry, archive_path, is_archive_entry, is_archive_path};
use crate::format_util::{human_size, size_text};
use crate::num_text::{decimal, decimal_text};
use crate::state::AppState;
use crate::trash_io::{in_trash, is_below_trash};
use crate::types::{entry_views, EntryView, FileEntry, FileType};
use crate::unix_path::UnixPath;
use crate::user_dirs::opt_path;
use std::collections::HashSet;
use vstd::prelude::*;
use vstd::std_specs::hash::*;
use vstd::std_specs::iter::IteratorSpec;
use vstd::string::*;
use vstd::utf8::*;

verus! {

broadcast use group_hash_axioms;

/// How a click selects.
#[derive(Clone, Copy, Debug, PartialEq, Eq, Structural)]
pub enum SelectMode {
    Single,
    Toggle,
    Range,
}

/// The keys that move the selection.
#[derive(Clone, Copy, Debug, PartialEq, Eq, Structural)]
pub enum NavKey {
    Up,
    Down,
    PageUp,
    PageDown,
    Home,
    End,
}

/// How many rows a page key moves.
pub const PAGE_SIZE: usize = 15;

/// Whether two windows differ in the selection of the active tab at most.
pub open spec fn same_but_selection(a: AppState, b: AppState) -> bool {
    &&& a.rows_model == b.rows_model
    &&& a.back_stack == b.back_stack
    &&& a.forward_stack == b.forward_stack
    &&& a.current == b.current
    &&& a.entries == b.entries
    &&& a.all_entries == b.all_entries
    &&& a.tabs == b.tabs
    &&& a.active_tab_idx == b.active_tab_idx
    &&& crate::state::same_shared(a, b)
    &&& a.inactive_pane == b.inactive_pane
    &&& a.active_is_right == b.active_is_right
    &&& a.next_model == b.next_model
}

/// The rows from one to another, in either direction.
pub open spec fn range_of(a: usize, b: usize) -> Set<usize> {
    Set::new(|i: usize| a <= i <= b || b <= i <= a)
}

/// The set without a row, or with it.
pub open spec fn toggled(s: Set<usize>, i: usize) -> Set<usize> {
    if s.contains(i) {
        s.remove(i)
    } else {
        s.insert(i)
    }
}

/// The selection after a click on row `i`. A range is added to what was
/// selected before.
pub open spec fn clicked(
    selected: Set<usize>,
    anchor: Option<usize>,
    i: usize,
    mode: SelectMode,
) -> Set<usize> {
    match mode {
        SelectMode::Single => Set::empty().insert(i),
        SelectMode::Toggle => toggled(selected, i),
        SelectMode::Range => selected.union(
            range_of(
                match anchor {
                    Some(a) => a,
                    None => i,
                },
                i,
            ),
        ),
    }
}

/// Selects by a click on a row. A click below the last row does nothing.
pub fn apply_selection(state: &mut AppState, idx: usize, mode: SelectMode)
    ensures
        idx >= old(state).entries@.len() ==> *final(state) == *old(state),
        idx < old(state).entries@.len() ==> final(state).selected@ == clicked(
            old(state).selected@,
            old(state).anchor,
            idx,
            mode,
        ) && final(state).anchor == Some(idx),
        same_but_selection(*final(state), *old(state)),
{
    if idx >= state.entries.len() {
        return ;
    }
    match mode {
        SelectMode::Single => {
            state.selected.clear();
            state.selected.insert(idx);
        },
        SelectMode::Toggle => {
            if !state.selected.remove(&idx) {
                state.selected.insert(idx);
            }
        },
        SelectMode::Range => {
            let from: usize = match state.anchor {
                Some(a) => a,
                None => idx,
            };
            insert_range(&mut state.selected, from, idx);
        },
    }
    state.anchor = Some(idx);
}

/// Adds the rows from one to another.
fn insert_range(set: &mut HashSet<usize>, from: usize, to: usize)
    ensures
        final(set)@ == old(set)@.union(range_of(from, to)),
{
    let (lo, hi): (usize, usize) = if from <= to {
        (from, to)
    } else {
        (to, from)
    };
    let mut i: usize = lo;
    loop
        invariant_except_break
            lo <= i <= hi,
            set@ == old(set)@.union(Set::new(|k: usize| lo <= k < i)),
        ensures
            set@ == old(set)@.union(Set::new(|k: usize| lo <= k <= hi)),
        decreases hi - i,
    {
        let ghost before = set@;
        set.insert(i);
        assert(set@ =~= old(set)@.union(Set::new(|k: usize| lo <= k <= i)));
        if i == hi {
            break ;
        }
        i += 1;
        assert(set@ =~= old(set)@.union(Set::new(|k: usize| lo <= k < i)));
    }
    assert(Set::new(|k: usize| lo <= k <= hi) =~= range_of(from, to));
}

/// Clicking the same row twice with the toggle key changes nothing.
pub proof fn toggling_twice_changes_nothing(s: Set<usize>, i: usize)
    ensures
        toggled(toggled(s, i), i) == s,
{
    assert(toggled(toggled(s, i), i) =~= s);
}

/// A range contains both its ends and keeps what was selected.
pub proof fn range_keeps_selection(s: Set<usize>, a: usize, i: usize)
    ensures
        s.subset_of(clicked(s, Some(a), i, SelectMode::Range)),
        clicked(s, Some(a), i, SelectMode::Range).contains(a),
        clicked(s, Some(a), i, SelectMode::Range).contains(i),
{
}

/// The row that a key moves to, of `n` rows.
pub open spec fn moved_to(cur: int, n: int, key: NavKey) -> int {
    let target = match key {
        NavKey::Up => cur - 1,
        NavKey::Down => cur + 1,
        NavKey::PageUp => cur - PAGE_SIZE,
        NavKey::PageDown => cur + PAGE_SIZE,
        NavKey::Home => 0,
        NavKey::End => n - 1,
    };
    match key {
        NavKey::Up | NavKey::PageUp => if target < 0 {
            0
        } else {
            target
        },
        _ => if target > n - 1 {
            n - 1
        } else {
            target
        },
    }
}

/// Moves the selection by a key. With shift what was selected stays selected.
pub fn apply_nav(state: &mut AppState, key: NavKey, shift: bool)
    ensures
        old(state).entries@.len() == 0 ==> *final(state) == *old(state),
        old(state).entries@.len() > 0 ==> {
            let cur = match old(state).anchor {
                Some(a) => a as int,
                None => 0,
            };
            let to = moved_to(cur, old(state).entries@.len() as int, key);
            &&& final(state).anchor matches Some(a) && a == to
            &&& final(state).selected@ == if shift {
                old(state).selected@.insert(to as usize)
            } else {
                Set::empty().insert(to as usize)
            }
        },
        same_but_selection(*final(state), *old(state)),
{
    let n: usize = state.entries.len();
    if n == 0 {
        return ;
    }
    let cur: usize = match state.anchor {
        Some(a) => a,
        None => 0,
    };
    let to: usize = match key {
        NavKey::Up => if cur == 0 {
            0
        } else {
            cur - 1
        },
        NavKey::Down => if cur >= n - 1 {
            n - 1
        } else {
            cur + 1
        },
        NavKey::PageUp => if cur < PAGE_SIZE {
            0
        } else {
            cur - PAGE_SIZE
        },
        NavKey::PageDown => if cur >= n - 1 || n - 1 - cur < PAGE_SIZE {
            n - 1
        } else {
            cur + PAGE_SIZE
        },
        NavKey::Home => 0,
        NavKey::End => n - 1,
    };
    if !shift {
        state.selected.clear();
    }
    state.selected.insert(to);
    state.anchor = Some(to);
}

/// Selects every row.
pub fn select_all(state: &mut AppState)
    ensures
        final(state).selected@ == Set::new(|i: usize| i < old(state).entries@.len()),
        final(state).anchor == Some(0usize),
        same_but_selection(*final(state), *old(state)),
{
    let n: usize = state.entries.len();
    let mut all: HashSet<usize> = HashSet::new();
    let mut i: usize = 0;
    assert(all@ =~= Set::new(|k: usize| k < 0));
    while i < n
        invariant
            i <= n,
            all@ == Set::new(|k: usize| k < i),
        decreases n - i,
    {
        all.insert(i);
        i += 1;
        assert(all@ =~= Set::new(|k: usize| k < i));
    }
    state.selected = all;
    state.anchor = Some(0);
}

/// Selects nothing.
pub fn select_none(state: &mut AppState)
    ensures
        final(state).selected@ == Set::<usize>::empty(),
        final(state).anchor is None,
        same_but_selection(*final(state), *old(state)),
{
    state.selected.clear();
    state.anchor = None;
}

// ---------------------------------------------------------------------------
// Rubber band
// ---------------------------------------------------------------------------

/// Copies a set of rows.
pub fn copy_rows(s: &HashSet<usize>) -> (r: HashSet<usize>)
    ensures
        r@ == s@,
{
    let mut r: HashSet<usize> = HashSet::new();
    for x in it: s.iter()
        invariant
            it.seq().unref().to_set() == s@,
            r@ == it.seq().unref().take(it.index()).to_set(),
    {
        proof {
            let u = it.seq().unref();
            let k = it.index();
            assert(u.take(k + 1) =~= u.take(k).push(*x));
            u.take(k).lemma_push_to_set_commute(*x);
        }
        r.insert(*x);
    }
    proof {
        let u = s.iter().remaining().unref();
        assert(u.take(u.len() as int) =~= u);
    }
    r
}

/// Remembers the selection when a rubber band is begun.
pub fn rubberband_begin(state: &mut AppState)
    ensures
        final(state).rubberband_base@ == old(state).selected@,
        final(state)@ == old(state)@,
        *final(state) == (AppState {
            rubberband_base: final(state).rubberband_base,
            ..*old(state)
        }),
{
    state.rubberband_base = copy_rows(&state.selected);
}

/// The rows of which exactly one of two sets holds.
pub open spec fn flipped(base: Set<usize>, hits: Set<usize>) -> Set<usize> {
    Set::new(|i: usize| base.contains(i) != hits.contains(i))
}

/// Selects what a rubber band touches: in place of the selection, or flipped
/// against the selection when the band was begun.
pub fn rubberband_select(state: &mut AppState, hits: &Vec<usize>, ctrl: bool)
    requires
        hits@.no_duplicates(),
    ensures
        final(state).selected@ == if ctrl {
            flipped(old(state).rubberband_base@, hits@.to_set())
        } else {
            hits@.to_set()
        },
        final(state).anchor is None,
        same_but_selection(*final(state), *old(state)),
{
    let mut result: HashSet<usize> = if ctrl {
        copy_rows(&state.rubberband_base)
    } else {
        HashSet::new()
    };
    let ghost base = result@;
    let mut i: usize = 0;
    assert(result@ =~= flipped(base, hits@.take(0).to_set()));
    while i < hits.len()
        invariant
            i <= hits@.len(),
            hits@.no_duplicates(),
            result@ == flipped(base, hits@.take(i as int).to_set()),
        decreases hits@.len() - i,
    {
        let h: usize = hits[i];
        proof {
            assert(hits@.take(i + 1) =~= hits@.take(i as int).push(h));
            hits@.take(i as int).lemma_push_to_set_commute(h);
            assert(!hits@.take(i as int).contains(h));
        }
        let ghost before = result@;
        if !result.remove(&h) {
            result.insert(h);
        }
        assert(result@ =~= flipped(base, hits@.take(i + 1).to_set()));
        i += 1;
    }
    assert(hits@.take(i as int) =~= hits@);
    assert(!ctrl ==> flipped(base, hits@.to_set()) =~= hits@.to_set());
    state.selected = result;
    state.anchor = None;
}

/// A band that touches the same rows again gives the base back.
pub proof fn flipping_twice_gives_the_base(base: Set<usize>, hits: Set<usize>)
    ensures
        flipped(flipped(base, hits), hits) == base,
{
    assert(flipped(flipped(base, hits), hits) =~= base);
}

// ---------------------------------------------------------------------------
// Search results
// ---------------------------------------------------------------------------

/// Whether search row `k` is selected after a click on row `i`.
pub open spec fn search_clicked(
    before: bool,
    k: int,
    anchor: Option<usize>,
    i: int,
    mode: SelectMode,
) -> bool {
    let from = match anchor {
        Some(a) => a as int,
        None => i,
    };
    match mode {
        SelectMode::Single => k == i,
        SelectMode::Toggle => if k == i {
            !before
        } else {
            before
        },
        SelectMode::Range => before || from <= k <= i || i <= k <= from,
    }
}

/// Selects among search results by a click on a row.
pub fn apply_search_selection(
    rows: &mut Vec<bool>,
    anchor: &mut Option<usize>,
    idx: usize,
    mode: SelectMode,
)
    ensures
        final(rows)@.len() == old(rows)@.len(),
        idx >= old(rows)@.len() ==> final(rows)@ == old(rows)@ && *final(anchor) == *old(anchor),
        idx < old(rows)@.len() ==> *final(anchor) == Some(idx) && forall|k: int|
            0 <= k < old(rows)@.len() ==> #[trigger] final(rows)@[k] == search_clicked(
                old(rows)@[k],
                k,
                *old(anchor),
                idx as int,
                mode,
            ),
{
    let n: usize = rows.len();
    if idx >= n {
        return ;
    }
    let from: usize = match *anchor {
        Some(a) => a,
        None => idx,
    };
    let ghost before = rows@;
    let mut k: usize = 0;
    while k < n
        invariant
            k <= n,
            n == before.len(),
            rows@.len() == n,
            from == match *anchor {
                Some(a) => a,
                None => idx,
            },
            forall|j: int|
                0 <= j < k ==> #[trigger] rows@[j] == search_clicked(
                    before[j],
                    j,
                    *anchor,
                    idx as int,
                    mode,
                ),
            forall|j: int| k <= j < n ==> #[trigger] rows@[j] == before[j],
        decreases n - k,
    {
        let want: bool = match mode {
            SelectMode::Single => k == idx,
            SelectMode::Toggle => if k == idx {
                !rows[k]
            } else {
                rows[k]
            },
            SelectMode::Range => rows[k] || (from <= k && k <= idx) || (idx <= k && k <= from),
        };
        rows.set(k, want);
        k += 1;
    }
    *anchor = Some(idx);
}

/// Selects or unselects every search result.
pub fn set_all_search_selected(rows: &mut Vec<bool>, want: bool)
    ensures
        final(rows)@ == Seq::new(old(rows)@.len(), |i: int| want),
{
    let n: usize = rows.len();
    let mut k: usize = 0;
    while k < n
        invariant
            k <= n,
            n == old(rows)@.len(),
            rows@.len() == n,
            forall|j: int| 0 <= j < k ==> rows@[j] == want,
        decreases n - k,
    {
        rows.set(k, want);
        k += 1;
    }
    assert(rows@ =~= Seq::new(old(rows)@.len(), |i: int| want));
}

/// A search result as far as the menus need it.
pub struct SearchRow {
    pub selected: bool,
    pub is_dir: bool,
    pub display_name: String,
}

/// How many of the first `n` search results are selected.
pub open spec fn selected_upto(rows: Seq<SearchRow>, n: int) -> nat
    decreases n,
{
    if n <= 0 {
        0
    } else {
        selected_upto(rows, n - 1) + if rows[n - 1].selected {
            1nat
        } else {
            0nat
        }
    }
}

/// Whether a selected search result has the name of an archive.
pub open spec fn selected_archive(r: SearchRow) -> bool {
    r.selected && !r.is_dir && archive_path(encode_utf8(r.display_name@))
}

/// How many search results are selected, and whether one of them has the name
/// of an archive.
pub fn push_search_selected_count(rows: &Vec<SearchRow>) -> (r: (usize, bool))
    ensures
        r.0 == selected_upto(rows@, rows@.len() as int),
        r.1 == exists|i: int| 0 <= i < rows@.len() && selected_archive(#[trigger] rows@[i]),
{
    let mut count: usize = 0;
    let mut any: bool = false;
    let mut i: usize = 0;
    while i < rows.len()
        invariant
            i <= rows@.len(),
            count <= i,
            count == selected_upto(rows@, i as int),
            any == exists|k: int| 0 <= k < i && selected_archive(#[trigger] rows@[k]),
        decreases rows@.len() - i,
    {
        if rows[i].selected {
            count += 1;
            if !rows[i].is_dir && is_archive_path(&UnixPath::new(rows[i].display_name.as_str())) {
                assert(selected_archive(rows@[i as int]));
                any = true;
            }
        }
        i += 1;
    }
    (count, any)
}

// ---------------------------------------------------------------------------
// What the status bar and the menus say
// ---------------------------------------------------------------------------

/// The selected rows in order.
pub fn selected_indices(selected: &HashSet<usize>) -> (r: Vec<usize>)
    ensures
        r@.to_set() == selected@,
        forall|i: int, j: int| 0 <= i < j < r@.len() ==> r@[i] < r@[j],
{
    let mut v: Vec<usize> = Vec::new();
    for x in it: selected.iter()
        invariant
            it.seq().unref().to_set() == selected@,
            it.seq().no_duplicates(),
            v@.to_set() == it.seq().unref().take(it.index()).to_set(),
            forall|i: int, j: int| 0 <= i < j < v@.len() ==> v@[i] < v@[j],
    {
        let h: usize = *x;
        proof {
            let u = it.seq().unref();
            let k = it.index();
            assert(u.take(k + 1) =~= u.take(k).push(h));
            u.take(k).lemma_push_to_set_commute(h);
            assert forall|m: int| 0 <= m < k implies u[m] != h by {
                assert(it.seq()[m] != it.seq()[k]);
            }
            assert(!u.take(k).contains(h));
            assert(!u.take(k).to_set().contains(h));
            assert forall|m: int| 0 <= m < v@.len() implies v@[m] != h by {
                assert(v@.to_set().contains(v@[m]));
            }
        }
        let ghost before = v@;
        let mut at: usize = v.len();
        while at > 0 && v[at - 1] > h
            invariant
                at <= v@.len(),
                v@ == before,
                forall|m: int| at <= m < v@.len() ==> v@[m] > h,
            decreases at,
        {
            at -= 1;
        }
        v.insert(at, h);
        proof {
            assert(v@ =~= before.insert(at as int, h));
            assert forall|i: int, j: int| 0 <= i < j < v@.len() implies v@[i] < v@[j] by {
                if j < at {
                    assert(before[i] < before[j]);
                } else if j == at {
                    if i < at - 1 {
                        assert(before[i] < before[at - 1]);
                    }
                    assert(before[at - 1] != h);
                } else {
                    if i < at {
                        assert(before[i] < before[j - 1]);
                    } else if i == at {
                        assert(before[j - 1] > h);
                    } else {
                        assert(before[i - 1] < before[j - 1]);
                    }
                }
            }
            assert(v@.to_set() =~= before.to_set().insert(h)) by {
                assert forall|e: usize| before.to_set().insert(h).contains(e) implies
                    v@.to_set().contains(e) by {
                    if e == h {
                        assert(v@[at as int] == h);
                    } else {
                        let m = choose|m: int| 0 <= m < before.len() && before[m] == e;
                        if m < at {
                            assert(v@[m] == e);
                        } else {
                            assert(v@[m + 1] == e);
                        }
                    }
                }
                assert forall|e: usize| v@.to_set().contains(e) implies before.to_set().insert(
                    h,
                ).contains(e) by {
                    let m = choose|m: int| 0 <= m < v@.len() && v@[m] == e;
                    if m < at {
                        assert(before[m] == e);
                    } else if m > at {
                        assert(before[m - 1] == e);
                    }
                }
            }
        }
    }
    proof {
        let u = selected.iter().remaining().unref();
        assert(u.take(u.len() as int) =~= u);
    }
    v
}

/// How many of the first `n` entries are selected folders.
pub open spec fn folders_upto(es: Seq<EntryView>, sel: Set<usize>, n: int) -> nat
    decreases n,
{
    if n <= 0 {
        0
    } else {
        folders_upto(es, sel, n - 1) + if sel.contains((n - 1) as usize) && es[n - 1].file_type
            == FileType::Directory {
            1nat
        } else {
            0nat
        }
    }
}

/// How many of the first `n` entries are selected files.
pub open spec fn files_upto(es: Seq<EntryView>, sel: Set<usize>, n: int) -> nat
    decreases n,
{
    if n <= 0 {
        0
    } else {
        files_upto(es, sel, n - 1) + if sel.contains((n - 1) as usize) && es[n - 1].file_type
            != FileType::Directory {
            1nat
        } else {
            0nat
        }
    }
}

/// How many bytes the selected files among the first `n` entries hold.
pub open spec fn bytes_upto(es: Seq<EntryView>, sel: Set<usize>, n: int) -> nat
    decreases n,
{
    if n <= 0 {
        0
    } else {
        bytes_upto(es, sel, n - 1) + if sel.contains((n - 1) as usize) && es[n - 1].file_type
            != FileType::Directory {
            es[n - 1].size as nat
        } else {
            0nat
        }
    }
}

/// The most folders whose direct items are counted.
pub const FOLDER_STAT_CAP: usize = 50;

/// A number of direct items.
pub open spec fn items_phrase(n: nat) -> Seq<char> {
    decimal(n) + " direct "@ + if n == 1 {
        "item"@
    } else {
        "items"@
    }
}

/// A number with the word for one or for several.
pub open spec fn counted_noun(n: nat, one: Seq<char>, many: Seq<char>) -> Seq<char> {
    decimal(n) + " "@ + if n == 1 {
        one
    } else {
        many
    }
}

/// The summary of one selected entry.
pub open spec fn single_summary(e: EntryView, direct: nat) -> Seq<char> {
    if e.file_type == FileType::Directory {
        e.display_name + " selected (containing "@ + items_phrase(direct) + ")"@
    } else {
        e.display_name + " selected ("@ + size_text(e.size as nat) + ")"@
    }
}

/// The summary of several selected entries: `direct` is how many items the
/// folders hold, where they are few enough to be counted.
pub open spec fn group_summary(folders: nat, files: nat, bytes: nat, direct: nat) -> Seq<char> {
    let tail = counted_noun(files, "file"@, "files"@) + " ("@ + size_text(bytes) + ")"@;
    if folders > 0 {
        let detail = if folders <= FOLDER_STAT_CAP {
            " (containing "@ + items_phrase(direct) + ")"@
        } else {
            Seq::empty()
        };
        let lead = counted_noun(folders, "folder"@, "folders"@) + " selected"@ + detail;
        if files > 0 {
            lead + ", "@ + tail
        } else {
            lead
        }
    } else {
        counted_noun(files, "file"@, "files"@) + " selected ("@ + size_text(bytes) + ")"@
    }
}

/// The selection as the status bar shows it; nothing without a selection.
pub open spec fn summary(es: Seq<EntryView>, sel: Set<usize>, direct: nat) -> Seq<char> {
    let n = es.len() as int;
    let folders = folders_upto(es, sel, n);
    let files = files_upto(es, sel, n);
    if folders == 0 && files == 0 {
        Seq::empty()
    } else if sel.len() == 1 {
        single_summary(es[sel.choose() as int], direct)
    } else {
        group_summary(folders, files, bytes_upto(es, sel, n), direct)
    }
}

/// Adds up the selected entries.
fn tally(entries: &Vec<FileEntry>, selected: &HashSet<usize>) -> (r: (usize, usize, u64, usize))
    requires
        bytes_upto(entry_views(entries@), selected@, entries@.len() as int) <= u64::MAX,
    ensures
        r.0 == folders_upto(entry_views(entries@), selected@, entries@.len() as int),
        r.1 == files_upto(entry_views(entries@), selected@, entries@.len() as int),
        r.2 == bytes_upto(entry_views(entries@), selected@, entries@.len() as int),
        r.0 + r.1 > 0 ==> r.3 < entries@.len() && selected@.contains(r.3),
{
    let ghost es = entry_views(entries@);
    let mut folders: usize = 0;
    let mut files: usize = 0;
    let mut bytes: u64 = 0;
    let mut last: usize = 0;
    let mut i: usize = 0;
    while i < entries.len()
        invariant
            i <= entries@.len(),
            es == entry_views(entries@),
            folders + files <= i,
            folders == folders_upto(es, selected@, i as int),
            files == files_upto(es, selected@, i as int),
            bytes == bytes_upto(es, selected@, i as int),
            bytes_upto(es, selected@, entries@.len() as int) <= u64::MAX,
            folders + files > 0 ==> last < entries@.len() && selected@.contains(last),
        decreases entries@.len() - i,
    {
        assert(es[i as int] == entries@[i as int]@);
        proof {
            lemma_bytes_grow(es, selected@, i + 1, entries@.len() as int);
        }
        if selected.contains(&i) {
            last = i;
            if entries[i].is_dir() {
                folders += 1;
            } else {
                files += 1;
                bytes = bytes + entries[i].size;
            }
        }
        i += 1;
    }
    (folders, files, bytes, last)
}

proof fn lemma_bytes_grow(es: Seq<EntryView>, sel: Set<usize>, a: int, b: int)
    requires
        0 <= a <= b,
    ensures
        bytes_upto(es, sel, a) <= bytes_upto(es, sel, b),
    decreases b,
{
    if a < b {
        lemma_bytes_grow(es, sel, a, b - 1);
    }
}

fn items_text(n: usize) -> (r: String)
    ensures
        r@ == items_phrase(n as nat),
{
    let mut s = decimal_text(n as u64);
    s.append(" direct ");
    if n == 1 {
        s.append("item");
    } else {
        s.append("items");
    }
    s
}

fn noun_text(n: usize, one: &str, many: &str) -> (r: String)
    ensures
        r@ == counted_noun(n as nat, one@, many@),
{
    let mut s = decimal_text(n as u64);
    s.append(" ");
    if n == 1 {
        s.append(one);
    } else {
        s.append(many);
    }
    s
}

/// Whether the direct items of the selected folders are to be counted: there are
/// some, and not too many.
pub fn folders_to_count(entries: &Vec<FileEntry>, selected: &HashSet<usize>) -> (r: bool)
    ensures
        r == (1 <= folders_upto(entry_views(entries@), selected@, entries@.len() as int)
            <= FOLDER_STAT_CAP),
{
    let ghost es = entry_views(entries@);
    let mut folders: usize = 0;
    let mut i: usize = 0;
    while i < entries.len()
        invariant
            i <= entries@.len(),
            es == entry_views(entries@),
            folders <= i,
            folders == folders_upto(es, selected@, i as int),
        decreases entries@.len() - i,
    {
        assert(es[i as int] == entries@[i as int]@);
        if selected.contains(&i) && entries[i].is_dir() {
            folders += 1;
        }
        i += 1;
    }
    1 <= folders && folders <= FOLDER_STAT_CAP
}

/// The selection as the status bar shows it. `direct_items` is how many items
/// the selected folders hold together.
pub fn selection_summary(
    entries: &Vec<FileEntry>,
    selected: &HashSet<usize>,
    direct_items: usize,
) -> (r: String)
    requires
        bytes_upto(entry_views(entries@), selected@, entries@.len() as int) <= u64::MAX,
    ensures
        r@ == summary(entry_views(entries@), selected@, direct_items as nat),
{
    let ghost es = entry_views(entries@);
    let (folders, files, bytes, last) = tally(entries, selected);
    if folders == 0 && files == 0 {
        return String::new();
    }
    if selected.len() == 1 {
        proof {
            let x = selected@.choose();
            assert(selected@.contains(x)) by {
                assert(selected@.contains(last));
            }
            assert(x == last) by {
                if x != last {
                    let t = Set::empty().insert(x).insert(last);
                    assert(t.subset_of(selected@));
                    vstd::seq_lib::seq_to_set_is_finite(selected.iter().remaining().unref());
                    vstd::set_lib::lemma_len_subset(t, selected@);
                    assert(t.len() == 2);
                }
            }
            assert(es[last as int] == entries@[last as int]@);
        }
        let e = &entries[last];
        let mut s: String = e.display_name.clone();
        if e.is_dir() {
            s.append(" selected (containing ");
            s.append(items_text(direct_items).as_str());
            s.append(")");
        } else {
            s.append(" selected (");
            s.append(human_size(e.size).as_str());
            s.append(")");
        }
        return s;
    }
    if folders > 0 {
        let mut s = noun_text(folders, "folder", "folders");
        s.append(" selected");
        let ghost plain = s@;
        if folders <= FOLDER_STAT_CAP {
            let mut detail: String = " (containing ".to_owned();
            detail.append(items_text(direct_items).as_str());
            detail.append(")");
            s.append(detail.as_str());
        } else {
            assert(plain + Seq::empty() =~= plain);
        }
        if files > 0 {
            let mut tail = noun_text(files, "file", "files");
            tail.append(" (");
            tail.append(human_size(bytes).as_str());
            tail.append(")");
            s.append(", ");
            s.append(tail.as_str());
        }
        s
    } else {
        let mut s = noun_text(files, "file", "files");
        s.append(" selected (");
        s.append(human_size(bytes).as_str());
        s.append(")");
        s
    }
}

/// What the menus need to know of the selection.
#[derive(Debug)]
pub struct SelectionFlags {
    /// How many rows are selected.
    pub count: usize,
    /// Whether the selection is one folder.
    pub is_dir: bool,
    /// How many folders are selected.
    pub dir_count: usize,
    /// Whether a selected entry lies in the trash.
    pub in_trash: bool,
    /// Whether a selected entry can be extracted.
    pub has_archive: bool,
}

/// What the menus need to know of the selection.
pub fn push_selected_count(
    entries: &Vec<FileEntry>,
    selected: &HashSet<usize>,
    trash_files: &Option<UnixPath>,
) -> (r: SelectionFlags)
    ensures
        ({
            let es = entry_views(entries@);
            let n = entries@.len() as int;
            &&& r.count == selected@.len()
            &&& r.dir_count == folders_upto(es, selected@, n)
            &&& r.is_dir == (selected@.len() == 1 && folders_upto(es, selected@, n) == 1)
            &&& r.in_trash == exists|i: int|
                0 <= i < n && selected@.contains(i as usize) && in_trash(
                    (#[trigger] es[i]).path,
                    opt_path(*trash_files),
                )
            &&& r.has_archive == exists|i: int|
                0 <= i < n && selected@.contains(i as usize) && archive_entry(#[trigger] es[i])
        }),
{
    let ghost es = entry_views(entries@);
    let mut dirs: usize = 0;
    let mut trash: bool = false;
    let mut archive: bool = false;
    let mut i: usize = 0;
    while i < entries.len()
        invariant
            i <= entries@.len(),
            es == entry_views(entries@),
            dirs <= i,
            dirs == folders_upto(es, selected@, i as int),
            trash == exists|k: int|
                0 <= k < i && selected@.contains(k as usize) && in_trash(
                    (#[trigger] es[k]).path,
                    opt_path(*trash_files),
                ),
            archive == exists|k: int|
                0 <= k < i && selected@.contains(k as usize) && archive_entry(#[trigger] es[k]),
        decreases entries@.len() - i,
    {
        assert(es[i as int] == entries@[i as int]@);
        if selected.contains(&i) {
            if entries[i].is_dir() {
                dirs += 1;
            }
            if is_below_trash(&entries[i].path, trash_files) {
                trash = true;
            }
            if is_archive_entry(&entries[i]) {
                archive = true;
            }
        }
        i += 1;
    }
    let count: usize = selected.len();
    SelectionFlags {
        count,
        is_dir: count == 1 && dirs == 1,
        dir_count: dirs,
        in_trash: trash,
        has_archive: archive,
    }
}

} // verus!
