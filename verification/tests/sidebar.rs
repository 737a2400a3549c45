//! The sidebar, settings and what goes on in the background: bookmarks, places,
//! devices, thumbnails, watching.
use mykrut::bookmarks::{config_dir, config_dir_in, BookmarkStore};
use mykrut::calendar::FileTime;
use mykrut::devices::{
    enumerate_devices, first_mount_point, is_text_before, mtp_entry, update_devices, BlockRecord,
    DeviceInfo, MtpController,
};
use mykrut::disk_space::DiskSpace;
use mykrut::places::{
    bookmark_name, bookmark_state_of, computer_mount_candidates, current_bookmark_path, disk_item,
    header, index_places, is_user_relevant_fs, is_user_relevant_path, place_clicked,
    pretty_mount_label, selected_folder, selection_bookmark_path, toggle_bookmark, xdg_dirs,
    ComputerDisk, DirsPresent, PlaceClick, PlacesController, SidebarWords,
};
use mykrut::settings::{
    apply_persisted, cycle_item_size, icon_style_from_u8, icon_style_to_u8, item_size_beside, loaded,
    migrate_view_mode, same, settings_path, settings_path_in, snapshot, sort_key_from_u8,
    sort_key_to_u8, sort_order_from_u8, sort_order_to_u8, view_mode_to_u8, Autosave, IconStyle,
    PersistedSettings, ViewMode,
};
use mykrut::sort_select::{SortKey, SortOrder};
use mykrut::state::AppState;
use mykrut::thumb_queue::{
    budget_bytes, has_thumbnailable_ext, has_thumbnailable_mime, is_thumbnailable_path,
    pixels_bytes, row_of_path, thumb_size_from_u8, tick_continues, worker_count,
    ThumbnailController,
};
use mykrut::thumbnails::ThumbSize;
use mykrut::types::{FileEntry, FileType, Location, Permissions};
use mykrut::ui_watchdog::{Report, Watchdog};
use mykrut::unix_path::UnixPath;
use mykrut::user_dirs::UserDirs;
use mykrut::watcher::{is_interesting, on_navigated, ChangeKind, WatchStep, WatcherState};

fn path(s: &str) -> UnixPath {
    UnixPath::new(s)
}

fn paths(v: &[&str]) -> Vec<UnixPath> {
    v.iter().map(|s| path(s)).collect()
}

fn entry(p: &str, file_type: FileType) -> FileEntry {
    FileEntry {
        path: path(p),
        display_name: p.rsplit('/').next().unwrap().to_string(),
        file_type,
        mime: None,
        size: 0,
        mtime: FileTime::epoch(),
        permissions: Permissions::default(),
        is_hidden: false,
        is_symlink: false,
    }
}

fn dirs() -> UserDirs {
    UserDirs {
        home: Some(path("/home/u")),
        desktop: Some(path("/home/u/Desktop")),
        documents: Some(path("/home/u/Documents")),
        downloads: None,
        pictures: None,
        music: None,
        videos: None,
        templates: None,
        public: None,
    }
}

fn there() -> DirsPresent {
    DirsPresent {
        desktop: true,
        documents: false,
        downloads: true,
        pictures: true,
        music: true,
        videos: true,
        templates: true,
        public: true,
    }
}

// ---------------------------------------------------------------------------
// Bookmarks
// ---------------------------------------------------------------------------

#[test]
fn upsert_replaces_same_path() {
    let mut s = BookmarkStore::default();
    s.upsert("First", &path("/a"));
    s.upsert("Second", &path("/a"));
    assert_eq!(s.entries.len(), 1);
    assert_eq!(s.entries[0].name, "Second");
}

#[test]
fn remove_by_path_works() {
    let mut s = BookmarkStore::default();
    s.upsert("A", &path("/a"));
    s.upsert("B", &path("/b"));
    s.remove_by_path("/a");
    assert_eq!(s.entries.len(), 1);
    assert_eq!(s.entries[0].path, "/b");
}

#[test]
fn data_lies_below_the_configuration() {
    assert_eq!(config_dir_in(&path("/c")).display(), "/c/mykrut/data");
    assert_eq!(settings_path_in(&path("/c")).display(), "/c/mykrut/data/settings.toml");
    if let (Some(dir), Some(file)) = (config_dir(), settings_path()) {
        assert!(dir.display().ends_with("/mykrut/data"));
        assert_eq!(file.parent(), Some(dir));
    }
}

#[test]
fn toggling_twice_gives_the_bookmarks_back_here() {
    let mut s = BookmarkStore::default();
    s.upsert("A", &path("/a"));
    let index = index_places(&vec![], &s);
    assert!(toggle_bookmark(&mut s, &index, &path("/b"), "B"));
    assert_eq!(s.entries.len(), 2);
    assert!(toggle_bookmark(&mut s, &index, &path("/b"), "B"));
    assert_eq!(s.entries.len(), 1);
    assert_eq!(s.entries[0].name, "A");
}

// ---------------------------------------------------------------------------
// Places
// ---------------------------------------------------------------------------

const MOUNTS: &str = "\
/dev/sda1 / ext4 rw 0 0
proc /proc proc rw 0 0
/dev/sda2 /home btrfs rw 0 0
/dev/sda2 /home btrfs rw 0 0
/dev/sda3 /boot/efi vfat rw 0 0
tmpfs /tmp tmpfs rw 0 0
/dev/sdb1 /mnt/data xfs rw 0 0
short
";

#[test]
fn mounts_are_picked() {
    assert_eq!(computer_mount_candidates(MOUNTS), paths(&["/", "/home", "/mnt/data"]));
    assert!(is_user_relevant_fs("fuseblk") && !is_user_relevant_fs("tmpfs"));
    assert!(is_user_relevant_path(&path("/data")) && !is_user_relevant_path(&path("/snap/x")));
    assert_eq!(pretty_mount_label(&path("/")), "Filesystem");
    assert_eq!(pretty_mount_label(&path("/mnt/data")), "Data");
    assert_eq!(pretty_mount_label(&path("/mnt/ßx")), "SSx");
}

fn words() -> SidebarWords {
    SidebarWords {
        computer: "Computer".into(),
        places: "Places".into(),
        devices: "Devices".into(),
        bookmarks: "Bookmarks".into(),
        trash: "Trash".into(),
        not_mounted: "(not mounted)".into(),
    }
}

const GIB: u64 = 1 << 30;

fn controller() -> PlacesController {
    let mut bookmarks = BookmarkStore::default();
    bookmarks.upsert("Code", &path("/home/u/code"));
    let space = |free, total| DiskSpace { free, total };
    PlacesController {
        bookmarks,
        devices: vec![
            DeviceInfo {
                object_path: "/org/a".into(),
                label: "Stick".into(),
                device_path: "/dev/sdb1".into(),
                mount_point: Some(path("/mnt/data")),
                size_bytes: GIB,
            },
            DeviceInfo {
                object_path: "/org/b".into(),
                label: "Other".into(),
                device_path: "/dev/sdc1".into(),
                mount_point: None,
                size_bytes: GIB,
            },
        ],
        players: vec![mtp_entry("Phone".into(), 0x18d1, 0x4ee1, 12)],
        disk_usage: vec![
            (path("/home"), space(GIB, 2 * GIB)),
            (path("/"), space(GIB, 4 * GIB)),
            (path("/mnt/data"), space(GIB / 2, GIB)),
        ],
    }
}

#[test]
fn sidebar_is_built() {
    let c = controller();
    let mounts = computer_mount_candidates(MOUNTS);
    let items = c.rebuild(&words(), &mounts, &dirs(), there(), &Some(path("/t/files")));
    let got: Vec<(&str, &str)> = items.iter().map(|i| (i.label.as_str(), i.path.as_str())).collect();
    assert_eq!(
        got,
        [
            ("Computer", ""),
            ("Filesystem", "/"),
            ("Home", "/home"),
            ("Places", ""),
            ("Home", "/home/u"),
            ("Desktop", "/home/u/Desktop"),
            ("Trash", "/t/files"),
            ("Devices", ""),
            ("Phone", "mtp:loc12"),
            ("Stick", "/mnt/data"),
            ("Other (not mounted)", "udisks:/org/b"),
            ("Bookmarks", ""),
            ("Code", "/home/u/code"),
        ]
    );
    assert!(items[0].is_section_header && items[6].is_trash && items[12].is_bookmark);
    assert_eq!(items[1].usage_text, "1.00 GB free of 4.00 GB");
    assert!(items[9].has_usage && items[9].accepts_drop && !items[10].accepts_drop);
    assert_eq!(c.disk_usage_candidates(&mounts), paths(&["/", "/home", "/mnt/data", "/mnt/data"]));
    let index = index_places(&items, &c.bookmarks);
    assert_eq!(bookmark_state_of(&index, &Some("/home/u/code".into())).0, true);
    assert_eq!(bookmark_state_of(&index, &None), (false, false));
    let mut store = controller().bookmarks;
    assert!(!toggle_bookmark(&mut store, &index, &path("/home"), "Home"));
    assert_eq!(store.entries.len(), 1);
}

#[test]
fn small_mounts_are_left_out() {
    let mut c = controller();
    c.players.clear();
    c.devices.clear();
    c.bookmarks = BookmarkStore::default();
    c.disk_usage = vec![(path("/"), DiskSpace { free: 0, total: 256 * 1024 * 1024 - 1 })];
    let items = c.rebuild(&words(), &paths(&["/", "/home"]), &dirs(), there(), &None);
    let got: Vec<&str> = items.iter().map(|i| i.label.as_str()).collect();
    assert_eq!(got, ["Computer", "Places", "Home", "Desktop"]);
}

#[test]
fn places_in_detail() {
    assert!(header("X").is_section_header);
    let d = disk_item(&ComputerDisk { label: "L".into(), path: path("/l"), free: 1024, total: 2048 });
    assert_eq!(d.usage_text, "1.00 KB free of 2.00 KB");
    assert_eq!(xdg_dirs(&dirs(), there()).len(), 1);
    assert!(matches!(place_clicked("udisks:/org/b"), PlaceClick::Mount(p) if p == "/org/b"));
    assert!(matches!(place_clicked("mtp:loc1"), PlaceClick::Player(p) if p == "loc1"));
    assert!(matches!(place_clicked("/home"), PlaceClick::Navigate(p) if p == path("/home")));
    assert_eq!(bookmark_name(&path("/a/b")), "b");
    assert_eq!(bookmark_name(&path("/")), "/");
    let mut s = AppState::new(1, 2);
    s.entries = vec![entry("/d/x", FileType::Directory), entry("/d/f", FileType::Regular)];
    assert_eq!(selected_folder(&s), None);
    s.selected = [0].into_iter().collect();
    assert_eq!(selected_folder(&s), Some(0));
    assert_eq!(selection_bookmark_path(&s).as_deref(), Some("/d/x"));
    s.selected = [1].into_iter().collect();
    assert_eq!(selection_bookmark_path(&s), None);
    assert_eq!(current_bookmark_path(&s), None);
    s.current = Some(Location::Local(path("/d")));
    assert_eq!(current_bookmark_path(&s).as_deref(), Some("/d"));
}

// ---------------------------------------------------------------------------
// Devices
// ---------------------------------------------------------------------------

fn record(object: &str, device: &str) -> BlockRecord {
    let mut dev = device.as_bytes().to_vec();
    dev.push(0);
    BlockRecord {
        object_path: object.into(),
        has_filesystem: true,
        has_block: true,
        device: Some(dev),
        id_label: Some("".into()),
        id_uuid: None,
        size: Some(5),
        hint_system: None,
        mount_points: None,
    }
}

#[test]
fn devices_are_listed_in_order() {
    let mut labelled = record("/o/b", "/dev/sdb1");
    labelled.id_label = Some("Stick".into());
    labelled.mount_points = Some(vec![b"/run/media/x\0".to_vec(), b"/other\0".to_vec()]);
    let mut system = record("/o/s", "/dev/sda1");
    system.hint_system = Some(true);
    system.mount_points = Some(vec![b"/\0".to_vec()]);
    let mut unmounted_system = record("/o/t", "/dev/sda2");
    unmounted_system.hint_system = Some(true);
    let mut by_id = record("/o/u", "/dev/sdc1");
    by_id.id_uuid = Some("1234-ABCD".into());
    let mut no_fs = record("/o/v", "/dev/sdd");
    no_fs.has_filesystem = false;
    assert_eq!(first_mount_point(&labelled), Some(path("/run/media/x")));
    let devices = enumerate_devices(&vec![by_id, labelled, system, record("/o/a", "/dev/sda9"), unmounted_system, no_fs]);
    let got: Vec<(&str, &str)> =
        devices.iter().map(|d| (d.device_path.as_str(), d.label.as_str())).collect();
    assert_eq!(got, [("/dev/sda9", "sda9"), ("/dev/sdb1", "Stick"), ("/dev/sdc1", "1234-ABCD")]);
    assert!(is_text_before("a", "b") && !is_text_before("b", "b"));
    let again = enumerate_devices(&vec![record("/o/a", "/dev/sda9")]);
    let mut current = devices;
    assert!(update_devices(&mut current, again));
    assert!(!update_devices(&mut current, enumerate_devices(&vec![record("/o/a", "/dev/sda9")])));
}

#[test]
fn order_of_arrival_does_not_matter() {
    let names = ["/dev/sdc1", "/dev/sda1", "/dev/sdb1", "/dev/nvme0n1p1"];
    let listed = |order: &[usize]| -> Vec<String> {
        let records: Vec<BlockRecord> =
            order.iter().map(|&i| record(&format!("/o/{i}"), names[i])).collect();
        enumerate_devices(&records).into_iter().map(|d| d.device_path).collect()
    };
    let expected = ["/dev/nvme0n1p1", "/dev/sda1", "/dev/sdb1", "/dev/sdc1"];
    for order in [[0, 1, 2, 3], [3, 2, 1, 0], [1, 3, 0, 2], [2, 0, 3, 1]] {
        assert_eq!(listed(&order), expected);
    }
}

#[test]
fn players_are_noticed() {
    let p = mtp_entry("Phone".into(), 0x18d1, 0x2e, 3);
    assert_eq!((p.serial.as_str(), p.vendor.as_str(), p.model.as_str()), ("loc3", "0x18d1", "0x002e"));
    let mut c = MtpController::new();
    assert!(c.updated(Some(vec![p])));
    assert!(!c.updated(Some(vec![mtp_entry("Phone".into(), 0x18d1, 0x2e, 3)])));
    assert!(c.updated(None));
    assert!(c.devices.is_empty());
}

// ---------------------------------------------------------------------------
// Settings
// ---------------------------------------------------------------------------

#[test]
fn roundtrip_defaults() {
    let s = PersistedSettings::default();
    let parsed = snapshot(&apply_persisted(&s), s.window_size);
    assert_eq!(parsed.dark_theme, s.dark_theme);
    assert_eq!(parsed.view_mode, s.view_mode);
    assert_eq!(parsed.window_size, s.window_size);
    assert!(same(&parsed, &s));
}

#[test]
fn missing_fields_use_default() {
    let parsed = PersistedSettings { dark_theme: false, ..loaded(None) };
    assert!(!parsed.dark_theme);
    assert_eq!(parsed.view_mode, 0);
    assert_eq!(parsed.window_size, (1100, 700));
}

#[test]
fn settings_in_detail() {
    let d = PersistedSettings::default();
    assert_eq!((d.item_size, d.sidebar_width, d.thumb_size, d.thumb_mem_budget_mb), (3, 220, 2, 2048));
    assert_eq!(migrate_view_mode(0, 9), (ViewMode::List, 7));
    assert_eq!(migrate_view_mode(0, 0), (ViewMode::List, 1));
    for size in 1..=7u8 {
        assert_eq!(migrate_view_mode(1, size), (ViewMode::Gallery, size as i32));
        assert_eq!(item_size_beside(1, Some(size)), size);
    }
    assert_eq!(migrate_view_mode(1, item_size_beside(1, None)), (ViewMode::Gallery, 2));
    assert_eq!(migrate_view_mode(2, item_size_beside(2, None)), (ViewMode::Gallery, 3));
    assert_eq!(migrate_view_mode(3, item_size_beside(3, None)), (ViewMode::Gallery, 5));
    assert_eq!(migrate_view_mode(4, item_size_beside(4, None)), (ViewMode::Gallery, 7));
    assert_eq!(migrate_view_mode(0, item_size_beside(0, None)), (ViewMode::List, 3));
    assert_eq!(migrate_view_mode(2, 5), (ViewMode::Gallery, 3));
    assert_eq!(migrate_view_mode(3, 5), (ViewMode::Gallery, 5));
    assert_eq!(migrate_view_mode(4, 5), (ViewMode::Gallery, 7));
    assert_eq!(migrate_view_mode(5, 4), (ViewMode::Gallery, 4));
    assert_eq!(cycle_item_size(7, 1), 7);
    assert_eq!(cycle_item_size(3, -1), 2);
    assert_eq!(cycle_item_size(1, -5), 1);
    for k in [SortKey::Name, SortKey::Size, SortKey::Mtime, SortKey::Kind] {
        assert_eq!(sort_key_from_u8(sort_key_to_u8(k)), k);
    }
    for o in [SortOrder::Ascending, SortOrder::Descending] {
        assert_eq!(sort_order_from_u8(sort_order_to_u8(o)), o);
    }
    for i in [IconStyle::Mono, IconStyle::Color] {
        assert_eq!(icon_style_from_u8(icon_style_to_u8(i)), i);
    }
    assert_eq!(sort_key_from_u8(9), SortKey::Name);
    assert_eq!((view_mode_to_u8(ViewMode::List), view_mode_to_u8(ViewMode::Gallery)), (0, 1));
    let odd = PersistedSettings { thumb_size: 9, thumb_mem_budget_mb: u32::MAX, ..d };
    let ui = apply_persisted(&odd);
    assert_eq!((ui.thumb_size, ui.thumb_mem_budget_mb), (3, -1));
    assert_eq!(snapshot(&ui, (1, 2)).thumb_mem_budget_mb, 0);
}

#[test]
fn settings_are_saved_when_they_change() {
    let mut ui = apply_persisted(&PersistedSettings::default());
    let mut a = Autosave::new(&ui);
    assert!(a.tick(&ui).is_none());
    ui.show_hidden = true;
    let saved = a.tick(&ui).unwrap();
    assert!(saved.show_hidden);
    assert!(a.tick(&ui).is_none());
    assert_eq!(apply_persisted(&saved), ui);
    ui.view_mode = ViewMode::Gallery;
    ui.item_size = 6;
    assert_eq!(apply_persisted(&a.tick(&ui).unwrap()), ui, "the size of the gallery is kept");
}

// ---------------------------------------------------------------------------
// In the background
// ---------------------------------------------------------------------------

#[test]
fn stalls_are_reported_once() {
    let mut w = Watchdog::new();
    assert_eq!(w.sample(500, 200), Report::Nothing);
    assert_eq!(w.sample(600, 200), Report::Nothing, "no longer than the threshold");
    assert_eq!(w.sample(601, 200), Report::Stalled(401));
    assert_eq!(w.sample(900, 200), Report::Nothing);
    assert_eq!(w.sample(800, 200), Report::Nothing);
    assert_eq!(w.sample(1000, 600), Report::Recovered(700));
    assert_eq!(w.sample(1100, 1200), Report::Nothing);
    assert_eq!(w, Watchdog::new());
}

#[test]
fn thumbnails_are_queued() {
    assert!(has_thumbnailable_mime(&Some("image/png".into())));
    assert!(!has_thumbnailable_mime(&None));
    assert!(has_thumbnailable_ext(&path("/a.FLAC")) && !has_thumbnailable_ext(&path("/a")));
    assert!(is_thumbnailable_path(&path("/a.png"), &None));
    assert_eq!(thumb_size_from_u8(0), ThumbSize::Normal);
    assert_eq!(thumb_size_from_u8(3), ThumbSize::XxLarge);
    assert_eq!(budget_bytes(2), 2 << 20);
    assert_eq!(pixels_bytes(10, 20), 800);
    assert!(worker_count(1) >= 1);
    assert!(tick_continues(0, 0));
    let mut c = ThumbnailController::new(2, 1);
    let mut img = entry("/a.png", FileType::Regular);
    img.mime = Some("image/png".into());
    c.submit_for(&vec![img, entry("/d", FileType::Directory), entry("/t.txt", FileType::Regular)]);
    assert_eq!(c.queue.len(), 1);
    let g = c.generation;
    let job = c.pop().unwrap();
    assert_eq!(job.src, path("/a.png"));
    assert_eq!(c.should_generate(&job, false), Some(ThumbSize::XLarge));
    assert_eq!(c.should_generate(&job, true), None);
    c.cancel_all();
    assert_eq!(c.should_generate(&job, false), None);
    assert_ne!(c.generation, g);
    let g = c.generation;
    assert_eq!(c.apply_result(g + 1, 10, Some(false), None), (false, false, false));
    assert_eq!(c.apply_result(g, 10, Some(true), None), (true, false, false));
    assert_eq!(c.mem_used, 0);
    assert_eq!(c.apply_result(g, 10, Some(false), Some(true)), (true, true, false));
    assert_eq!(c.mem_used, 10);
    assert_eq!(c.apply_result(g, 1 << 20, None, Some(false)), (true, false, true));
    assert_eq!(c.apply_result(g, 1, Some(false), None), (false, false, false), "over the limit");
    c.enqueue_paths(&paths(&["/b.png"]));
    assert_eq!(c.queue.len(), 1);
    assert_eq!(row_of_path(&paths(&["/a", "/b"]), &path("/b")), Some(1));
    assert_eq!(row_of_path(&paths(&["/a"]), &path("/b")), None);
}

#[test]
fn only_the_last_change_refreshes() {
    let mut w = WatcherState::new();
    assert!(matches!(w.set_path(path("/a")), WatchStep::Nothing));
    assert!(matches!(w.set_enabled(true), WatchStep::Attach(p) if p == path("/a")));
    w.attached();
    assert!(matches!(w.set_enabled(true), WatchStep::Nothing));
    assert!(matches!(w.set_path(path("/b")), WatchStep::Attach(p) if p == path("/b")));
    let first = w.changed();
    let second = w.changed();
    assert!(!w.fires(first) && w.fires(second));
    assert!(matches!(w.set_enabled(false), WatchStep::Detach));
    assert!(is_interesting(ChangeKind::Created) && is_interesting(ChangeKind::Unknown));
    assert!(!is_interesting(ChangeKind::Accessed) && !is_interesting(ChangeKind::Other));
    assert_eq!(on_navigated(&Location::Local(path("/x"))), Some(path("/x")));
    assert_eq!(on_navigated(&Location::Trash), None);
}
