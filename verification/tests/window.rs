//! The state of the window: panes, tabs, listings, selection, history,
//! clipboard, undo and search.
use mykrut::calendar::FileTime;
use mykrut::clipboard::{
    copy_path_text, current_dir, do_paste, drop_dragged, drop_sources, drop_target, paste_target,
    put_into_clipboard, selected_paths, start_drag, DropPlace,
};
use mykrut::copy_progress::Op;
use mykrut::disk_space::DiskSpace;
use mykrut::file_actions::{
    bulk_rename_pairs, created, new_file_path, new_file_suggestion, publish_bulk_rename_preview,
    rename_source, renamed_to, request_delete, request_open, request_rename, tally, trashed,
    OpenRequest, RenameRequest,
};
use mykrut::listing::{
    activate_search_selection, activate_selection, apply_pending_select, begin_listing,
    disk_free_text, finish_listing, load_inactive_pane, mark_clipboard_visuals,
    open_containing_folder, push_path_segments, refresh_inactive_pane, remove_paths_from_view,
    row_activated, rows_of, search_focused, snapshot_thumbs, view_of, Activation,
};
use mykrut::local_fs::Stat;
use mykrut::navigation::{
    loc_eq, navigate_back, navigate_forward, navigate_to, navigate_up, preflight_local_path,
    update_nav_buttons, Examined, Navigation, Preflight,
};
use mykrut::open_with::{default_app_mime, mime_for, request_paths, single_selected_file};
use mykrut::properties::{folder_entry, request_properties, PropertiesRequest};
use mykrut::search::{
    apply_batch, close_search, hit_to_row, is_current, open_search, query_changed, take_message,
    walker, QueryStep, SearchHit, SearchMsg, SearchResults, SearchWalk, MAX_RESULTS,
};
use mykrut::selection::{
    apply_nav, apply_search_selection, apply_selection, folders_to_count, push_search_selected_count,
    push_selected_count, rubberband_begin, rubberband_select, select_all, select_none,
    selected_indices, selection_summary, set_all_search_selected, NavKey, SearchRow, SelectMode,
};
use mykrut::sort_select::{
    all_comparable, names_clash, natural_cmp, sort_by, sort_indices, SortKey, SortOrder,
};
use mykrut::state::{tab_title, AppState};
use mykrut::tabs::{
    build_tab_infos, close_tab, ensure_side_active, location_is_trash, open_in_new_tabs,
    publish_split, search_fate, selected_dirs, tab_to_close, SearchFate,
};
use mykrut::thumb_queue::ThumbnailController;
use mykrut::types::{FileEntry, FileType, Location, Permissions};
use mykrut::undo::{
    all_succeeded, apply, perform, present, rename_may_go_ahead, UndoOp, UndoStack, UndoStep,
};
use mykrut::unix_path::UnixPath;
use mykrut::user_dirs::UserDirs;
use std::cmp::Ordering;
use std::collections::HashSet;

fn path(s: &str) -> UnixPath {
    UnixPath::new(s)
}

fn paths(v: &[&str]) -> Vec<UnixPath> {
    v.iter().map(|s| path(s)).collect()
}

fn local(s: &str) -> Location {
    Location::Local(path(s))
}

fn shown(l: &Option<Location>) -> String {
    l.as_ref().map(|l| l.display()).unwrap_or_default()
}

fn no_dirs() -> UserDirs {
    UserDirs {
        home: None,
        desktop: None,
        documents: None,
        downloads: None,
        pictures: None,
        music: None,
        videos: None,
        templates: None,
        public: None,
    }
}

fn typed(name: &str, file_type: FileType, size: u64) -> FileEntry {
    FileEntry {
        path: path(name),
        display_name: name.to_string(),
        file_type,
        mime: None,
        size,
        mtime: FileTime::epoch(),
        permissions: Permissions::default(),
        is_hidden: name.starts_with('.'),
        is_symlink: false,
    }
}

fn make(name: &str) -> FileEntry {
    typed(name, FileType::Regular, 0)
}

fn make_state() -> AppState {
    AppState::new(1, 2)
}

fn state_with(n: usize) -> AppState {
    let mut s = make_state();
    s.entries = (0..n).map(|i| make(&format!("f{i}"))).collect();
    s
}

fn sorted(s: &HashSet<usize>) -> Vec<usize> {
    let mut v: Vec<usize> = s.iter().copied().collect();
    v.sort_unstable();
    v
}

fn set(v: &[usize]) -> HashSet<usize> {
    v.iter().copied().collect()
}

// ---------------------------------------------------------------------------
// Panes and tabs
// ---------------------------------------------------------------------------

#[test]
fn starts_with_one_tab_no_split() {
    let st = make_state();
    assert_eq!(st.tabs.len(), 1);
    assert_eq!(st.active_tab_idx, 0);
    assert!(st.inactive_pane.is_none());
    assert!(!st.active_is_right);
}

#[test]
fn tab_ops_still_work() {
    let mut s = make_state();
    s.current = Some(local("/a"));
    s.new_tab();
    let m = s.switch_tab(1);
    assert!(m.is_some());
    assert_eq!(s.active_tab_idx, 1);
}

#[test]
fn toggle_split_creates_inactive_pane() {
    let mut s = make_state();
    s.current = Some(local("/home"));
    let seed = s.current.clone();
    s.toggle_split(seed);
    assert!(s.inactive_pane.is_some());
    let inactive = s.inactive_pane.as_ref().unwrap();
    assert_eq!(inactive.tabs.len(), 1, "new pane has exactly one tab");
    assert!(matches!(&inactive.current, Some(Location::Local(p)) if p.display() == "/home"));
}

#[test]
fn toggle_split_off_drops_inactive_pane() {
    let mut s = make_state();
    s.toggle_split(Some(local("/a")));
    s.toggle_split(None);
    assert!(s.inactive_pane.is_none());
    assert!(!s.active_is_right);
}

#[test]
fn swap_makes_other_pane_active() {
    let mut s = make_state();
    s.current = Some(local("/left"));
    s.toggle_split(Some(local("/right")));
    assert_eq!(*s.current.as_ref().and_then(|l| l.as_path()).unwrap(), path("/left"));

    s.swap_active();
    assert!(s.active_is_right);
    assert_eq!(*s.current.as_ref().and_then(|l| l.as_path()).unwrap(), path("/right"));

    s.swap_active();
    assert!(!s.active_is_right);
    assert_eq!(*s.current.as_ref().and_then(|l| l.as_path()).unwrap(), path("/left"));
}

#[test]
fn each_pane_keeps_its_own_tabs() {
    let mut s = make_state();
    s.current = Some(local("/left"));
    s.new_tab();
    s.switch_tab(1);
    s.current = Some(local("/left2"));
    assert_eq!(s.tabs.len(), 2);

    s.toggle_split(Some(local("/right")));
    assert_eq!(s.inactive_pane.as_ref().unwrap().tabs.len(), 1);

    s.swap_active();
    assert_eq!(s.tabs.len(), 1);
    assert_eq!(s.inactive_pane.as_ref().unwrap().tabs.len(), 2);
}

#[test]
fn panes_keep_history_and_listing() {
    let mut s = make_state();
    s.current = Some(local("/left"));
    s.back_stack = vec![local("/old")];
    s.entries = vec![make("x"), make("y")];
    s.selected = set(&[1]);
    s.toggle_split(Some(local("/right")));
    s.swap_active();
    assert!(s.back_stack.is_empty() && s.entries.is_empty());
    s.swap_active();
    assert_eq!(s.back_stack.len(), 1);
    assert_eq!(s.entries.len(), 2);
    assert_eq!(sorted(&s.selected), [1]);
}

#[test]
fn tabs_come_back_as_they_were() {
    let mut s = state_with(3);
    s.current = Some(local("/a"));
    apply_selection(&mut s, 2, SelectMode::Single);
    let i = s.new_tab();
    s.switch_tab(i);
    s.current = Some(local("/b"));
    s.entries = vec![];
    s.switch_tab(0);
    assert_eq!(shown(&s.current), "/a");
    assert_eq!(s.entries.len(), 3);
    assert_eq!(sorted(&s.selected), [2]);
    assert!(s.switch_tab(7).is_none());
}

#[test]
fn closing_tabs() {
    let mut s = make_state();
    s.current = Some(local("/a"));
    assert_eq!(s.close_tab(0), None, "the last tab stays");
    s.new_tab();
    s.new_tab();
    s.switch_tab(2);
    s.current = Some(local("/c"));
    let (closed, _) = close_tab(&mut s, 0);
    assert!(closed);
    assert_eq!(s.tabs.len(), 2);
    assert_eq!(s.active_tab_idx, 1);
    assert_eq!(shown(&s.current), "/c");
    assert_eq!(tab_to_close(&s, -1), 1);
    assert_eq!(tab_to_close(&s, 0), 0);
}

#[test]
fn tabs_are_shown() {
    let mut s = make_state();
    s.current = Some(local("/home/u"));
    s.new_tab();
    let infos = build_tab_infos(&s.tabs, s.active_tab_idx, &s.current);
    assert_eq!(infos.len(), 2);
    assert_eq!((infos[0].title.as_str(), infos[0].path.as_str()), ("u", "/home/u"));
    assert!(infos[0].is_active && !infos[1].is_active);
    assert_eq!(tab_title(&Some(local("/"))), "/");
    assert_eq!(tab_title(&Some(Location::Trash)), "Trash");
}

#[test]
fn folders_open_in_new_tabs() {
    let mut s = make_state();
    s.current = Some(local("/d"));
    let entries = vec![typed("/d/a", FileType::Directory, 0), make("/d/f"), typed("/d/b", FileType::Directory, 0)];
    let dirs = selected_dirs(&entries, &set(&[0, 1, 2]));
    assert_eq!(dirs, paths(&["/d/a", "/d/b"]));
    let first = open_in_new_tabs(&mut s, &dirs);
    assert_eq!(s.tabs.len(), 3);
    assert!(first.is_some());
    assert_eq!(open_in_new_tabs(&mut s, &vec![]), None);
}

#[test]
fn sides_and_search() {
    let mut s = make_state();
    s.current = Some(local("/l"));
    assert!(!ensure_side_active(&mut s, true));
    assert_eq!(search_fate(&s, false), SearchFate::Unaffected);
    s.toggle_split(Some(local("/r")));
    assert!(ensure_side_active(&mut s, true));
    assert_eq!(shown(&s.current), "/r");
    assert!(!search_focused(&s, true));
    s.search_on_right = true;
    assert!(search_focused(&s, true) && !search_focused(&s, false));
    let v = publish_split(&s, &None);
    assert!(v.split_active && v.active_is_right && v.search_on_right);
    assert_eq!(v.inactive_path, "/l");
    assert!(location_is_trash(&Location::Trash, &None));
    assert!(location_is_trash(&local("/t/files/x"), &Some(path("/t/files"))));
    assert!(!location_is_trash(&local("/t"), &Some(path("/t/files"))));
}

// ---------------------------------------------------------------------------
// Selection
// ---------------------------------------------------------------------------

#[test]
fn summary_empty_when_nothing_selected() {
    assert_eq!(selection_summary(&vec![], &HashSet::new(), 0), "");
}

#[test]
fn summary_single_file_shows_name_and_size() {
    let entries = vec![typed("report.pdf", FileType::Regular, 2_400_000)];
    let s = selection_summary(&entries, &set(&[0]), 0);
    assert!(s.starts_with("report.pdf selected ("), "got: {s}");
}

#[test]
fn summary_many_files_counts_and_sums() {
    let entries = vec![
        typed("a", FileType::Regular, 1000),
        typed("b", FileType::Regular, 2000),
        typed("c", FileType::Regular, 3000),
    ];
    let s = selection_summary(&entries, &set(&[0, 1, 2]), 0);
    assert!(s.starts_with("3 files selected ("), "got: {s}");
}

#[test]
fn summary_of_folders() {
    let entries = vec![
        typed("a", FileType::Directory, 0),
        typed("b", FileType::Directory, 0),
        typed("c", FileType::Regular, 1024),
    ];
    assert!(folders_to_count(&entries, &set(&[0, 1])));
    assert!(!folders_to_count(&entries, &set(&[2])));
    let one = selection_summary(&entries, &set(&[0]), 7);
    assert!(one.contains("a") && one.contains("7"), "{one}");
    let two = selection_summary(&entries, &set(&[0, 1]), 12);
    assert!(two.contains("2 folders") && two.contains("containing 12 direct items"), "{two}");
    let mixed = selection_summary(&entries, &set(&[0, 2]), 3);
    assert!(mixed.contains("1.00 KB"), "{mixed}");
}

#[test]
fn single_replaces() {
    let mut s = state_with(5);
    apply_selection(&mut s, 1, SelectMode::Single);
    apply_selection(&mut s, 3, SelectMode::Single);
    assert_eq!(sorted(&s.selected), vec![3]);
    assert_eq!(s.anchor, Some(3));
}

#[test]
fn toggle_adds_and_removes() {
    let mut s = state_with(5);
    apply_selection(&mut s, 1, SelectMode::Toggle);
    apply_selection(&mut s, 3, SelectMode::Toggle);
    assert_eq!(sorted(&s.selected), vec![1, 3]);
    apply_selection(&mut s, 1, SelectMode::Toggle);
    assert_eq!(sorted(&s.selected), vec![3]);
}

#[test]
fn range_extends_existing_selection() {
    let mut s = state_with(10);
    apply_selection(&mut s, 1, SelectMode::Toggle);
    apply_selection(&mut s, 8, SelectMode::Toggle);
    apply_selection(&mut s, 5, SelectMode::Range);
    assert_eq!(sorted(&s.selected), vec![1, 5, 6, 7, 8]);
}

#[test]
fn range_uses_anchor() {
    let mut s = state_with(10);
    apply_selection(&mut s, 2, SelectMode::Single);
    apply_selection(&mut s, 6, SelectMode::Range);
    assert_eq!(sorted(&s.selected), vec![2, 3, 4, 5, 6]);
}

#[test]
fn nav_down_moves_cursor_and_replaces() {
    let mut s = state_with(10);
    apply_selection(&mut s, 3, SelectMode::Single);
    apply_nav(&mut s, NavKey::Down, false);
    assert_eq!(sorted(&s.selected), vec![4]);
    assert_eq!(s.anchor, Some(4));
}

#[test]
fn nav_home_end() {
    let mut s = state_with(10);
    apply_selection(&mut s, 5, SelectMode::Single);
    apply_nav(&mut s, NavKey::End, false);
    assert_eq!(s.anchor, Some(9));
    apply_nav(&mut s, NavKey::Home, false);
    assert_eq!(s.anchor, Some(0));
}

#[test]
fn nav_with_shift_extends_additively() {
    let mut s = state_with(10);
    apply_selection(&mut s, 3, SelectMode::Single);
    apply_nav(&mut s, NavKey::Down, true);
    apply_nav(&mut s, NavKey::Down, true);
    assert_eq!(sorted(&s.selected), vec![3, 4, 5]);
}

#[test]
fn nav_page_clamps_at_edges() {
    let mut s = state_with(5);
    apply_selection(&mut s, 2, SelectMode::Single);
    apply_nav(&mut s, NavKey::PageDown, false);
    assert_eq!(s.anchor, Some(4));
    apply_nav(&mut s, NavKey::PageUp, false);
    assert_eq!(s.anchor, Some(0));
}

#[test]
fn range_reverse() {
    let mut s = state_with(10);
    apply_selection(&mut s, 7, SelectMode::Single);
    apply_selection(&mut s, 3, SelectMode::Range);
    assert_eq!(sorted(&s.selected), vec![3, 4, 5, 6, 7]);
}

#[test]
fn selecting_all_and_none() {
    let mut s = state_with(3);
    select_all(&mut s);
    assert_eq!(sorted(&s.selected), [0, 1, 2]);
    assert_eq!(selected_indices(&s.selected), [0, 1, 2]);
    select_none(&mut s);
    assert!(s.selected.is_empty());
    apply_nav(&mut state_with(0), NavKey::Down, false);
}

#[test]
fn rubber_band_flips_what_was_selected() {
    let mut s = state_with(5);
    apply_selection(&mut s, 1, SelectMode::Single);
    rubberband_begin(&mut s);
    rubberband_select(&mut s, &vec![1, 2], true);
    assert_eq!(sorted(&s.selected), [2]);
    rubberband_select(&mut s, &vec![], true);
    assert_eq!(sorted(&s.selected), [1]);
    rubberband_select(&mut s, &vec![3, 4], false);
    assert_eq!(sorted(&s.selected), [3, 4]);
}

#[test]
fn search_results_are_selected() {
    let mut rows = vec![false; 5];
    let mut anchor = None;
    apply_search_selection(&mut rows, &mut anchor, 1, SelectMode::Single);
    apply_search_selection(&mut rows, &mut anchor, 3, SelectMode::Range);
    assert_eq!(rows, [false, true, true, true, false]);
    apply_search_selection(&mut rows, &mut anchor, 2, SelectMode::Toggle);
    assert_eq!(rows, [false, true, false, true, false]);
    set_all_search_selected(&mut rows, true);
    assert_eq!(rows, [true; 5]);
    let row = |selected, is_dir, n: &str| SearchRow { selected, is_dir, display_name: n.into() };
    assert_eq!(
        push_search_selected_count(&vec![row(true, false, "a.zip"), row(false, false, "b")]),
        (1, true)
    );
}

#[test]
fn selection_flags() {
    let entries = vec![
        typed("/t/files/d", FileType::Directory, 0),
        make("/t/files/x.zip"),
        make("/t/files/y"),
    ];
    let f = push_selected_count(&entries, &set(&[0, 1]), &Some(path("/t/files")));
    assert_eq!((f.count, f.dir_count), (2, 1));
    assert!(f.in_trash && f.has_archive);
    let f = push_selected_count(&entries, &set(&[2]), &None);
    assert!(!f.in_trash && !f.has_archive && !f.is_dir);
}

// ---------------------------------------------------------------------------
// Sorting and listing
// ---------------------------------------------------------------------------

#[test]
fn directories_come_first() {
    let entries = vec![
        typed("zfile.txt", FileType::Regular, 100),
        typed("adir", FileType::Directory, 0),
        typed("afile.txt", FileType::Regular, 50),
    ];
    let mut idx: Vec<usize> = (0..3).collect();
    sort_indices(&mut idx, &entries, SortKey::Name, SortOrder::Ascending);
    assert_eq!(entries[idx[0]].display_name, "adir");
}

#[test]
fn natural_order_numbers() {
    assert_eq!(natural_cmp("file2", "file10"), Ordering::Less);
    assert_eq!(natural_cmp("file10", "file2"), Ordering::Greater);
    assert_eq!(natural_cmp("img1.png", "img1.png"), Ordering::Equal);
    assert_eq!(natural_cmp("track9", "track10"), Ordering::Less);
    assert_eq!(natural_cmp("apple", "banana"), Ordering::Less);
    assert_eq!(natural_cmp("Apple", "banana"), Ordering::Less);
}

#[test]
fn natural_order_sorts_file_list() {
    let names = ["f10.txt", "f2.txt", "f1.txt"];
    let entries: Vec<FileEntry> = names.iter().map(|n| make(n)).collect();
    let mut idx: Vec<usize> = (0..3).collect();
    sort_indices(&mut idx, &entries, SortKey::Name, SortOrder::Ascending);
    let sorted: Vec<&str> = idx.iter().map(|&i| entries[i].display_name.as_str()).collect();
    assert_eq!(sorted, ["f1.txt", "f2.txt", "f10.txt"]);
}

#[test]
fn ascending_then_descending() {
    let entries = vec![
        typed("b.txt", FileType::Regular, 200),
        typed("a.txt", FileType::Regular, 100),
        typed("c.txt", FileType::Regular, 300),
    ];
    let mut idx: Vec<usize> = (0..3).collect();
    sort_indices(&mut idx, &entries, SortKey::Name, SortOrder::Ascending);
    assert_eq!(entries[idx[0]].display_name, "a.txt");

    let mut idx: Vec<usize> = (0..3).collect();
    sort_indices(&mut idx, &entries, SortKey::Size, SortOrder::Descending);
    assert_eq!(entries[idx[0]].size, 300);
}

#[test]
fn sorting_is_stable_and_keeps_the_rows() {
    let mut entries: Vec<FileEntry> = (0..40).map(|i| typed(&format!("n{i}"), FileType::Regular, i % 3)).collect();
    entries[7].file_type = FileType::Directory;
    let mut idx: Vec<usize> = (0..40).collect();
    sort_indices(&mut idx, &entries, SortKey::Size, SortOrder::Ascending);
    assert_eq!(idx[0], 7);
    let mut expected: Vec<usize> = (0..40).filter(|i| *i != 7).collect();
    expected.sort_by_key(|&i| entries[i].size);
    assert_eq!(idx[1..], expected[..]);
    let mut all = idx.clone();
    all.sort_unstable();
    assert_eq!(all, (0..40).collect::<Vec<_>>());
}

#[test]
fn clicking_a_column_turns_the_order() {
    let (k, o) = sort_by(SortKey::Name, SortOrder::Ascending, SortKey::Name);
    assert_eq!((k, o), (SortKey::Name, SortOrder::Descending));
    let (k, o) = sort_by(SortKey::Name, SortOrder::Descending, SortKey::Size);
    assert_eq!((k, o), (SortKey::Size, SortOrder::Ascending));
}

#[test]
fn listing_hides_and_sorts() {
    let all = vec![make("b"), make(".h"), typed("z", FileType::Directory, 0), make("a")];
    let names = |v: &Vec<FileEntry>| v.iter().map(|e| e.display_name.clone()).collect::<Vec<_>>();
    assert_eq!(names(&view_of(&all, false, SortKey::Name, SortOrder::Ascending)), ["z", "a", "b"]);
    assert_eq!(
        names(&view_of(&all, true, SortKey::Name, SortOrder::Descending)).len(),
        4
    );
    assert!(all_comparable(&all, &vec![0, 1, 2, 3], SortKey::Name));
}

#[test]
fn long_numbers_in_names() {
    let names = |v: &Vec<FileEntry>| v.iter().map(|e| e.display_name.clone()).collect::<Vec<_>>();
    let by_name = |v: &Vec<FileEntry>, hidden: bool| {
        names(&view_of(v, hidden, SortKey::Name, SortOrder::Ascending))
    };
    let (ones, twos) = ("1".repeat(30), "2".repeat(30));
    // One such name is in nobody's way, and neither are two that differ before
    // the number.
    let x = make(&format!("x{ones}"));
    let a = make(&format!("a{ones}"));
    let short = make("x7");
    assert_eq!(
        by_name(&vec![x.clone(), short.clone(), a.clone()], false),
        [&a.display_name, "x7", &x.display_name]
    );
    assert!(!names_clash(&x.display_name, &a.display_name));
    assert_eq!(natural_cmp(&a.display_name, &x.display_name), Ordering::Less);
    // What fits into 64 bits is compared, with however many digits.
    let padded = |n: u64| make(&format!("{n:024}.log"));
    let largest = make("18446744073709551615.log");
    let below = make("18446744073709551614.log");
    assert_eq!(
        by_name(&vec![padded(1), padded(0), largest.clone(), below.clone()], false),
        names(&vec![below, largest, padded(0), padded(1)])
    );
    assert!(names_clash("18446744073709551616", "00000000000000000000"));
    assert!(!names_clash("18446744073709551616", "0000000000000000000"));
    // Numbers too large to be compared leave the order as it is, but for the
    // folders.
    let y = make(&format!("x{twos}"));
    let dir = typed(&format!("x{twos}"), FileType::Directory, 0);
    assert!(names_clash(&x.display_name, &y.display_name));
    let odd = vec![y.clone(), x.clone(), short, dir.clone()];
    assert!(!all_comparable(&odd, &vec![0, 1], SortKey::Name));
    assert!(all_comparable(&odd, &vec![0, 1], SortKey::Size));
    assert!(all_comparable(&odd, &vec![0, 2, 3], SortKey::Name));
    assert_eq!(
        by_name(&odd, false),
        [&dir.display_name, &y.display_name, &x.display_name, "x7"]
    );
    // What is not shown is not compared.
    let mut hidden = y;
    hidden.is_hidden = true;
    let some = vec![x.clone(), hidden, make("a")];
    assert_eq!(by_name(&some, false), ["a", &x.display_name]);
    assert_eq!(by_name(&some, true)[2], "a");
}

#[test]
fn listing_a_place() {
    let mut s = make_state();
    s.current = Some(local("/d"));
    s.clipboard.paths = paths(&["a"]);
    s.clipboard.cut = true;
    assert!(begin_listing(&mut s, &local("/e")));
    assert!(!begin_listing(&mut s, &local("/d")));
    s.pending_select = Some(path("b"));
    let rows = finish_listing(
        &mut s,
        local("/e"),
        vec![make("b"), make("a"), make(".c")],
        false,
        SortKey::Name,
        SortOrder::Ascending,
        &no_dirs(),
        &vec![],
    );
    let names: Vec<&str> = rows.iter().map(|r| r.display_name.as_str()).collect();
    assert_eq!(names, ["a", "b"]);
    assert!(rows[0].is_cut && !rows[1].is_cut);
    assert_eq!(s.all_entries.len(), 3);
    assert_eq!(shown(&s.current), "/e");
    assert_eq!(mark_clipboard_visuals(&s), [true, false]);
    assert_eq!(apply_pending_select(&mut s), Some(1));
    assert_eq!(sorted(&s.selected), [1]);
    assert_eq!(apply_pending_select(&mut s), None);
}

#[test]
fn rows_show_entries() {
    let mut e = typed("big.txt", FileType::Regular, 5_000_000_000);
    e.mime = Some("text/plain".into());
    let rows = rows_of(&vec![e, typed("d", FileType::Directory, 9)], &no_dirs(), &vec![], false, &paths(&["big.txt"]));
    assert_eq!(rows[0].icon_name, "text");
    assert!(rows[0].has_thumbnail && !rows[1].has_thumbnail);
    assert_eq!((rows[0].size_lo as u32 as u64) | ((rows[0].size_hi as u32 as u64) << 32), 5_000_000_000);
    assert_eq!(rows[0].kind_text, "text/plain");
    assert_eq!((rows[1].kind_text.as_str(), rows[1].icon_name.as_str()), ("Folder", "folder"));
    assert_eq!(snapshot_thumbs(&vec![make("a"), make("b")], &vec![false, true]), paths(&["b"]));
}

#[test]
fn what_is_gone_leaves_the_listing() {
    let mut s = state_with(4);
    s.all_entries = s.entries.clone();
    s.selected = set(&[1]);
    assert_eq!(
        remove_paths_from_view(&mut s, &paths(&["f1", "f2", "f3", "zz"]), &vec![false, true, false, false]),
        [3, 1]
    );
    let names: Vec<&str> = s.entries.iter().map(|e| e.display_name.as_str()).collect();
    assert_eq!(names, ["f0", "f2"]);
    assert!(s.selected.is_empty());
    assert_eq!(s.all_entries.len(), 2);
    assert!(remove_paths_from_view(&mut s, &paths(&["zz"]), &vec![false]).is_empty());
    // What could not be removed keeps its row.
    assert!(remove_paths_from_view(&mut s, &paths(&["f0"]), &vec![true]).is_empty());
    assert_eq!(s.entries.len(), 2);
}

#[test]
fn other_pane_is_listed() {
    let mut s = make_state();
    s.current = Some(local("/l"));
    assert!(refresh_inactive_pane(&s).is_none());
    s.toggle_split(Some(local("/r")));
    assert_eq!(shown(&refresh_inactive_pane(&s)), "/r");
    let rows = load_inactive_pane(
        &mut s,
        local("/r"),
        vec![make("b"), make("a")],
        true,
        SortKey::Name,
        SortOrder::Ascending,
        &no_dirs(),
    );
    assert_eq!(rows.unwrap().len(), 2);
    assert_eq!(s.inactive_pane.as_ref().unwrap().entries[0].display_name, "a");
    assert!(s.entries.is_empty());
}

#[test]
fn activation() {
    let mut s = make_state();
    s.entries = vec![typed("/d", FileType::Directory, 0), make("/f"), make("/g")];
    s.search_hit_paths = paths(&["/x/f", "/x/d"]);
    assert!(matches!(row_activated(&s, false, &vec![], 0), Activation::Navigate(p) if p == path("/d")));
    assert!(matches!(row_activated(&s, false, &vec![], 1), Activation::Open(p) if p == path("/f")));
    assert!(matches!(row_activated(&s, false, &vec![], 9), Activation::Nothing));
    assert!(matches!(row_activated(&s, true, &vec![false, true], 1), Activation::Navigate(p) if p == path("/x/d")));
    assert!(matches!(activate_selection(&s), Activation::Nothing));
    s.selected = set(&[0]);
    assert!(matches!(activate_selection(&s), Activation::Navigate(_)));
    s.selected = set(&[1, 2]);
    assert!(matches!(activate_selection(&s), Activation::OpenAll));
    assert!(matches!(
        activate_search_selection(&s, &vec![true, false], &vec![false, true]),
        Activation::Open(p) if p == path("/x/f")
    ));
    assert_eq!(open_containing_folder(&mut s, &vec![true, false]), Some(path("/x")));
    assert_eq!(s.pending_select, Some(path("/x/f")));
}

#[test]
fn address_bar() {
    let segs = push_path_segments(&local("/home/u"));
    let got: Vec<(&str, &str)> = segs.iter().map(|s| (s.label.as_str(), s.full_path.as_str())).collect();
    assert_eq!(got, [("/", "/"), ("home", "/home"), ("u", "/home/u")]);
    assert_eq!(push_path_segments(&Location::Trash).len(), 1);
    assert_eq!(disk_free_text(Some(DiskSpace { free: 1024, total: 2048 })), "1.00 KB free of 2.00 KB");
    assert_eq!(disk_free_text(None), "");
}

// ---------------------------------------------------------------------------
// History
// ---------------------------------------------------------------------------

#[test]
fn back_and_forward() {
    let mut s = make_state();
    let fine = Preflight {
        own: Some(Examined::Directory),
        target: Examined::Directory,
        opened: Examined::Directory,
    };
    assert!(matches!(navigate_to(&mut s, &local("/a"), &fine), Navigation::Go));
    s.current = Some(local("/a"));
    assert!(matches!(navigate_to(&mut s, &local("/a/"), &fine), Navigation::Stay));
    let gone = Preflight {
        own: Some(Examined::NotFound("no such file".into())),
        target: Examined::NotFound("no such file".into()),
        opened: Examined::NotFound("no such file".into()),
    };
    match navigate_to(&mut s, &local("/zz"), &gone) {
        Navigation::Blocked(m) => assert_eq!(m, "Path does not exist:\n/zz"),
        other => panic!("{other:?}"),
    }
    assert!(s.back_stack.is_empty());
    assert!(matches!(navigate_to(&mut s, &local("/b"), &fine), Navigation::Go));
    s.current = Some(local("/b"));
    assert_eq!(update_nav_buttons(&s), (true, false, true));
    let back = navigate_back(&mut s);
    assert_eq!(shown(&back), "/a");
    s.current = back;
    assert_eq!(update_nav_buttons(&s), (false, true, true));
    let forward = navigate_forward(&mut s);
    assert_eq!(shown(&forward), "/b");
    s.current = forward;
    assert_eq!(shown(&navigate_up(&s)), "/");
    s.current = Some(local("/"));
    assert!(navigate_up(&s).is_none());
    assert!(loc_eq(&local("/a/"), &local("/a")) && !loc_eq(&local("/a"), &Location::Trash));
}

#[test]
fn places_are_examined_first() {
    let p = path("/x");
    let f = |own, target, opened| Preflight { own, target, opened };
    assert!(preflight_local_path(&p, &f(Some(Examined::Directory), Examined::Directory, Examined::Directory)).is_none());
    let gone = preflight_local_path(
        &p,
        &f(None, Examined::NotFound("no such file".into()), Examined::Directory),
    );
    assert!(gone.unwrap().contains("/x"));
    assert!(preflight_local_path(&p, &f(Some(Examined::NotDirectory), Examined::NotDirectory, Examined::Directory)).is_some());
    assert!(preflight_local_path(
        &p,
        &f(Some(Examined::Directory), Examined::Directory, Examined::Denied("denied".into()))
    )
    .is_some());
}

// ---------------------------------------------------------------------------
// Clipboard and dragging
// ---------------------------------------------------------------------------

#[test]
fn cut_is_pasted_once() {
    let mut s = make_state();
    s.current = Some(local("/d"));
    assert!(!put_into_clipboard(&mut s, vec![], true));
    assert!(do_paste(&mut s).is_none());
    assert!(put_into_clipboard(&mut s, paths(&["/a", "/b"]), true));
    let t = do_paste(&mut s).unwrap();
    assert_eq!((t.paths, t.dest, t.op), (paths(&["/a", "/b"]), path("/d"), Op::Move));
    assert!(do_paste(&mut s).is_none());
    put_into_clipboard(&mut s, paths(&["/a"]), false);
    assert_eq!(do_paste(&mut s).unwrap().op, Op::Copy);
    assert!(do_paste(&mut s).is_some());
    s.current = Some(Location::Trash);
    assert!(do_paste(&mut s).is_none());
    assert_eq!(current_dir(&s), None);
}

#[test]
fn paste_goes_into_the_selected_folder() {
    let mut s = make_state();
    s.current = Some(local("/d"));
    s.entries = vec![typed("/d/sub", FileType::Directory, 0), make("/d/f")];
    s.selected = set(&[0]);
    assert_eq!(paste_target(&s, &paths(&["/x"])), Some(path("/d/sub")));
    assert_eq!(paste_target(&s, &paths(&["/d/sub"])), Some(path("/d")));
    s.entries[0].is_symlink = true;
    assert_eq!(paste_target(&s, &paths(&["/x"])), Some(path("/d")));
    s.selected = set(&[1]);
    assert_eq!(paste_target(&s, &paths(&["/x"])), Some(path("/d")));
    assert_eq!(selected_paths(&s, false, &vec![]), paths(&["/d/f"]));
    s.search_hit_paths = paths(&["/p", "/q", "/r"]);
    assert_eq!(selected_paths(&s, true, &vec![true, false, true, true]), paths(&["/p", "/r"]));
    assert_eq!(copy_path_text(&paths(&["/a b", "/c"])), "/a b\n/c");
    assert_eq!(copy_path_text(&vec![]), "");
}

#[test]
fn dragging() {
    let mut s = make_state();
    s.entries = vec![typed("/d/sub", FileType::Directory, 0), make("/d/f"), make("/d/g")];
    s.selected = set(&[1, 2]);
    assert!(start_drag(&mut s, true, 1, &no_dirs()).is_none());
    assert!(start_drag(&mut s, false, 9, &no_dirs()).is_none());
    let d = start_drag(&mut s, false, 1, &no_dirs()).unwrap();
    assert_eq!((d.count, d.label.as_str(), d.icon.as_str()), (2, "2 items", "file-generic"));
    assert_eq!(s.drag_paths, paths(&["/d/f", "/d/g"]));
    let d = start_drag(&mut s, false, 0, &no_dirs()).unwrap();
    assert_eq!((d.count, d.label.as_str(), d.icon.as_str()), (1, "/d/sub", "folder"));
    let row = DropPlace { path: "".into(), path_is_dir: false, row: 0, in_active_pane: true };
    assert_eq!(drop_target(&s, &row), Some(path("/d/sub")));
    // A folder is not dropped on itself.
    assert!(drop_dragged(&mut s, &Some(row), false).is_none());
    assert!(s.drag_paths.is_empty());
    s.drag_paths = paths(&["/d/f", "/d/sub"]);
    let row = DropPlace { path: "".into(), path_is_dir: false, row: 0, in_active_pane: true };
    let t = drop_dragged(&mut s, &Some(row), false).unwrap();
    assert_eq!((t.paths, t.dest, t.op), (paths(&["/d/f"]), path("/d/sub"), Op::Move));
    s.drag_paths = paths(&["/d/f"]);
    let place = DropPlace { path: "/e".into(), path_is_dir: true, row: 0, in_active_pane: true };
    let t = drop_dragged(&mut s, &Some(place), true).unwrap();
    assert_eq!((t.dest, t.op), (path("/e"), Op::Copy));
    s.drag_paths = paths(&["/d/f"]);
    assert!(drop_dragged(&mut s, &None, false).is_none());
    assert_eq!(
        drop_sources(&paths(&["/d", "/d/sub", "/d/sub/x", "/e"]), &path("/d/sub")),
        paths(&["/e"])
    );
}

// ---------------------------------------------------------------------------
// Commands
// ---------------------------------------------------------------------------

#[test]
fn bulk_rename_shows_conflicts() {
    let mut s = make_state();
    s.entries = vec![make("/d/a.txt"), make("/d/b.txt"), make("/d/c.txt")];
    for (e, n) in s.entries.iter_mut().zip(["a.txt", "b.txt", "c.txt"]) {
        e.display_name = n.to_string();
    }
    s.selected = set(&[0, 1]);
    let there = |p: &UnixPath| ["/d/a.txt", "/d/b.txt", "/d/c.txt"].iter().any(|x| *p == UnixPath::new(x));
    let p = publish_bulk_rename_preview(&s, "x_{idx}", there);
    assert_eq!(p.conflicts, 0);
    assert_eq!((p.rows[1].original.as_str(), p.rows[1].new_name.as_str()), ("b.txt", "x_2"));
    let p = publish_bulk_rename_preview(&s, "same", there);
    assert_eq!(p.conflicts, 2);
    let p = publish_bulk_rename_preview(&s, "a/{idx}", there);
    assert_eq!(p.conflicts, 2);
    let p = publish_bulk_rename_preview(&s, "{name}.txt", there);
    assert_eq!(p.conflicts, 0, "its own names are free");
    s.selected = set(&[0]);
    let p = publish_bulk_rename_preview(&s, "c.txt", there);
    assert_eq!(p.conflicts, 1);
    s.selected = set(&[0, 1]);
    let pairs = bulk_rename_pairs(&s, "{idx}{ext.}");
    assert_eq!(pairs[1], (path("/d/b.txt"), "2.txt".to_string()));
    assert_eq!(tally(&vec![true, false, true]), (2, 1));
}

#[test]
fn requests() {
    let mut s = state_with(3);
    assert_eq!(request_open(0), OpenRequest::Nothing);
    assert_eq!(request_open(4), OpenRequest::OpenAll);
    assert_eq!(request_open(5), OpenRequest::Confirm(5));
    assert_eq!(request_delete(&s), None);
    assert!(matches!(request_rename(&s), RenameRequest::Nothing));
    assert!(matches!(request_properties(&s), PropertiesRequest::Nothing));
    s.selected = set(&[1]);
    assert_eq!(request_delete(&s), Some(1));
    assert!(matches!(request_rename(&s), RenameRequest::One(n) if n == "f1"));
    assert_eq!(rename_source(&s), Some(path("f1")));
    assert_eq!(single_selected_file(&s), Some(path("f1")));
    assert_eq!(default_app_mime(&s), None);
    s.entries[1].mime = Some("application/zip".into());
    assert_eq!(default_app_mime(&s).as_deref(), Some("application/zip"), "as it was listed");
    s.entries[1].path = path("f1.txt");
    assert_eq!(default_app_mime(&s).as_deref(), Some("text/plain"));
    assert_eq!(mime_for(&path("/x.png")).as_deref(), Some("image/png"));
    s.entries[1].path = path("f1");
    assert!(matches!(request_properties(&s), PropertiesRequest::One(e) if e.display_name == "f1"));
    s.selected = set(&[0, 2]);
    assert!(matches!(request_rename(&s), RenameRequest::Bulk));
    assert!(matches!(request_properties(&s), PropertiesRequest::Many(v) if v.len() == 2));
    assert_eq!(request_paths(&s), paths(&["f0", "f2"]));
    assert_eq!(single_selected_file(&s), None);
    s.current = Some(local("/a/dir"));
    let e = folder_entry(&s, None).unwrap();
    assert_eq!((e.display_name.as_str(), e.mtime), ("dir", FileTime::epoch()));
    s.current = Some(Location::Trash);
    assert!(folder_entry(&s, None).is_none());
}

#[test]
fn new_files_get_a_free_name() {
    let d = path("/d");
    assert_eq!(new_file_suggestion(&d, |_: &UnixPath| false), "untitled.txt");
    assert_eq!(
        new_file_suggestion(&d, |p: &UnixPath| *p == UnixPath::new("/d/untitled.txt")),
        "untitled (1).txt"
    );
    assert_eq!(new_file_path(&d, "x", |_: &UnixPath| false).unwrap(), path("/d/x"));
    assert!(new_file_path(&d, "a/b", |_: &UnixPath| false).is_err());
}

#[test]
fn commands_are_recorded() {
    let mut s = state_with(2);
    created(&mut s, Some(path("/n")), true);
    created(&mut s, None, true);
    renamed_to(&mut s, path("/a"), Some(path("/b")));
    renamed_to(&mut s, path("/a"), None);
    assert_eq!(trashed(&mut s, &paths(&["f1"]), &vec![false]), [1]);
    assert_eq!(s.entries.len(), 1);
    assert_eq!(s.undo.undo.len(), 3);
    assert!(matches!(&s.undo.undo[0], UndoOp::Create { is_dir: true, .. }));
    assert!(matches!(&s.undo.undo[1], UndoOp::Rename { .. }));
    assert!(matches!(&s.undo.undo[2], UndoOp::Trash { originals } if *originals == paths(&["f1"])));
}

// ---------------------------------------------------------------------------
// Undo
// ---------------------------------------------------------------------------

#[test]
fn move_undo_then_redo_round_trips() {
    let src = path("/t/a.txt");
    let dest = path("/t/sub/a.txt");
    let mut files = vec![dest.clone()];
    let op = UndoOp::Move { moves: vec![(src.clone(), dest.clone())] };
    let mut run = |is_undo: bool, files: &mut Vec<UnixPath>| -> bool {
        let mut ok = true;
        for step in perform(&op, is_undo) {
            match step {
                UndoStep::Rename(from, to) => {
                    if rename_may_go_ahead(files.contains(&from), files.contains(&to)) {
                        files.retain(|p| *p != from);
                        files.push(to);
                    } else {
                        ok = false;
                    }
                }
                other => panic!("{other:?}"),
            }
        }
        ok
    };
    assert!(run(true, &mut files));
    assert!(files.contains(&src) && !files.contains(&dest));
    assert!(run(false, &mut files));
    assert!(files.contains(&dest) && !files.contains(&src));
}

#[test]
fn undo_steps() {
    let steps = perform(&UndoOp::Create { path: path("/n"), is_dir: true }, true);
    assert!(matches!(&steps[..], [UndoStep::Trash(v)] if *v == paths(&["/n"])));
    let steps = perform(&UndoOp::Create { path: path("/n"), is_dir: true }, false);
    assert!(matches!(&steps[..], [UndoStep::Recreate(p, true)] if *p == path("/n")));
    let steps = perform(&UndoOp::Trash { originals: paths(&["/a", "/b"]) }, true);
    assert!(matches!(&steps[..], [UndoStep::Restore(_), UndoStep::Restore(_)]));
    let steps = perform(&UndoOp::Copy { dests: paths(&["/a"]) }, true);
    assert!(matches!(&steps[..], [UndoStep::TrashPresent(_)]));
    assert_eq!(present(&paths(&["/a", "/b"]), &vec![false, true]), paths(&["/b"]));
    assert!(all_succeeded(&vec![]) && !all_succeeded(&vec![true, false]));
}

#[test]
fn undo_and_redo_take_turns() {
    let mut s = UndoStack::default();
    assert!(!apply(&mut s, true, true));
    s.record(UndoOp::Rename { from: path("/a"), to: path("/b") });
    assert!(apply(&mut s, true, true));
    assert_eq!((s.undo.len(), s.redo.len()), (0, 1));
    assert!(apply(&mut s, false, true));
    assert_eq!((s.undo.len(), s.redo.len()), (1, 0));
    // What fails stays where it was.
    apply(&mut s, true, false);
    assert_eq!((s.undo.len(), s.redo.len()), (1, 0));
    apply(&mut s, true, true);
    s.record(UndoOp::Create { path: path("/n"), is_dir: false });
    assert_eq!((s.undo.len(), s.redo.len()), (1, 0));
}

// ---------------------------------------------------------------------------
// Search
// ---------------------------------------------------------------------------

fn file_stat() -> Option<Stat> {
    Some(Stat { is_dir: false, is_file: true, is_symlink: false, len: 1, modified: None, mode: 0 })
}

fn tree(names: &[&str]) -> Vec<(UnixPath, Option<Stat>)> {
    names.iter().map(|n| (path(n), file_stat())).collect()
}

fn batches(msgs: Vec<SearchMsg>) -> Vec<Vec<SearchHit>> {
    msgs.into_iter()
        .filter_map(|m| match m {
            SearchMsg::Batch { hits, .. } => Some(hits),
            _ => None,
        })
        .collect()
}

fn hit_names(batches: &[Vec<mykrut::search::SearchHit>]) -> Vec<String> {
    batches.iter().flatten().map(|h| h.display_name.clone()).collect()
}

#[test]
fn walker_finds_substring_matches_recursively() {
    let t = tree(&["/d/report.txt", "/d/other.md", "/d/sub", "/d/sub/report-2.log"]);
    let mut hits = hit_names(&batches(walker(&t, "report", None, 1, &no_dirs())));
    hits.sort();
    assert_eq!(hits, vec!["report-2.log", "report.txt"]);
}

#[test]
fn walker_is_case_insensitive() {
    let t = tree(&["/d/README.md", "/d/notes.txt"]);
    assert_eq!(hit_names(&batches(walker(&t, "readme", None, 1, &no_dirs()))), vec!["README.md"]);
}

#[test]
fn walker_respects_cancel() {
    let names: Vec<String> = (0..200).map(|i| format!("/d/f{i}.txt")).collect();
    let names: Vec<&str> = names.iter().map(String::as_str).collect();
    let msgs = walker(&tree(&names), "f", Some(0), 1, &no_dirs());
    assert!(matches!(msgs[..], [SearchMsg::Done { generation: 1 }]));
    let total: usize = batches(msgs).iter().map(|b| b.len()).sum();
    assert_eq!(total, 0, "cancelled walker should produce no hits");
    let msgs = walker(&tree(&names), "f", Some(70), 1, &no_dirs());
    assert!(matches!(msgs.last(), Some(SearchMsg::Done { generation: 1 })));
    let sizes: Vec<usize> = batches(msgs).iter().map(|b| b.len()).collect();
    assert_eq!(sizes, [64, 6]);
}

#[test]
fn walker_reports_under_its_generation() {
    let msgs = walker(&tree(&["/d/a", "/d/b"]), "a", None, 7, &no_dirs());
    assert!(matches!(
        &msgs[..],
        [SearchMsg::Batch { generation: 7, hits }, SearchMsg::Done { generation: 7 }]
            if hits.len() == 1
    ));
    let w = SearchWalk::new("a", 7);
    assert!(matches!(w.begin(false), Some(SearchMsg::Generation(7))));
    assert!(w.begin(true).is_none());
    assert!(matches!(w.finish()[..], [SearchMsg::Done { generation: 7 }]));
}

#[test]
fn hits_are_limited_and_come_in_batches() {
    let names: Vec<String> = (0..6000).map(|i| format!("/d/f{i}")).collect();
    let names: Vec<&str> = names.iter().map(String::as_str).collect();
    let batches = batches(walker(&tree(&names), "F", None, 1, &no_dirs()));
    let total: usize = batches.iter().map(|b| b.len()).sum();
    assert_eq!(total, MAX_RESULTS.min(6000));
    assert!(batches.iter().all(|b| b.len() <= 64));
    assert_eq!(batches[0][0].display_name, "f0");
}

#[test]
fn search_goes_on_by_generations() {
    let mut s = make_state();
    s.current = Some(local("/d"));
    open_search(&mut s);
    assert_eq!(shown(&s.search_root), "/d");
    assert!(matches!(query_changed(&mut s, "  "), QueryStep::Clear));
    assert!(matches!(query_changed(&mut s, "abc"), QueryStep::Start(p) if p == path("/d")));
    let mut hits = batches(walker(&tree(&["/d/abc"]), "abc", None, 1, &no_dirs()));
    let hits = hits.remove(0);
    let mut found = Vec::new();
    let stale = apply_batch(&mut found, 2, 1, &hits, 0);
    assert!(stale.rows.is_empty() && found.is_empty());
    let batch = apply_batch(&mut found, 2, 2, &hits, 0);
    assert_eq!(batch.rows.len(), 1);
    assert_eq!(found, paths(&["/d/abc"]));
    assert_eq!(hit_to_row(&hits[0]).display_name, "abc");
    assert!(is_current(2, 2) && !is_current(2, 1));
    close_search(&mut s);
    assert!(s.search_root.is_none() && s.search_hit_paths.is_empty());
    let w = SearchWalk::new("X", 1);
    assert!(w.matches(b"axb") && !w.matches(b"ab"));
    assert!(w.goes_on(false) && !w.goes_on(true));
}

#[test]
fn search_messages_keep_rows_and_paths_in_step() {
    let mut s = make_state();
    s.current = Some(local("/d"));
    let mut results = SearchResults { rows: Vec::new(), searching: false, result_count: 0 };
    let mut thumbs = ThumbnailController::new(1, 64);
    let mut say = |s: &mut AppState, r: &mut SearchResults, msg: SearchMsg| {
        take_message(s, r, &mut thumbs, 2, msg);
        (thumbs.generation, thumbs.queue.len())
    };
    let t = tree(&["/d/abc.png", "/d/abc.txt"]);
    let found = || batches(walker(&t, "abc", None, 2, &no_dirs())).remove(0);

    let batch = SearchMsg::Batch { generation: 2, hits: found() };
    assert_eq!(say(&mut s, &mut results, batch), (0, 1));
    assert_eq!((results.rows.len(), results.result_count, results.searching), (2, 2, false));
    assert_eq!(s.search_hit_paths, paths(&["/d/abc.png", "/d/abc.txt"]));

    say(&mut s, &mut results, SearchMsg::Generation(1));
    let late = SearchMsg::Batch { generation: 1, hits: found() };
    assert_eq!(say(&mut s, &mut results, late), (0, 1));
    assert_eq!((results.rows.len(), s.search_hit_paths.len()), (2, 2));

    assert_eq!(say(&mut s, &mut results, SearchMsg::Generation(2)), (1, 0));
    assert!(results.rows.is_empty() && s.search_hit_paths.is_empty() && results.searching);
    say(&mut s, &mut results, SearchMsg::Done { generation: 1 });
    assert!(results.searching);
    say(&mut s, &mut results, SearchMsg::Done { generation: 2 });
    assert!(!results.searching);

    say(&mut s, &mut results, SearchMsg::Batch { generation: 2, hits: found() });
    assert_eq!(results.rows[1].display_name, "abc.txt");
    assert_eq!(say(&mut s, &mut results, SearchMsg::Cleared), (3, 0));
    assert!(results.rows.is_empty() && s.search_hit_paths.is_empty());
    assert_eq!(results.result_count, 0);
}
