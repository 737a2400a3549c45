//! What the sidebar lists.
use crate::bookmarks::{find_path, lemma_find_path, other_path, remove_undoes_add};
use crate::devices::{DeviceInfo, DeviceView};
use crate::disk_space::DiskSpace;
use crate::format_util::size_text;
use crate::listing::has_path;
use crate::num_text::decimal;
use crate::ordering::{orders, ranked_is_ordered};
use crate::picking::{exactly_those, lemma_picked, lemma_picked_none, picked_items_are_those_kept};
use crate::places::{
    blocked_path, bookmark_section, bookmark_toggled, by_mount_path, bytes_before, capitalized,
    component_before, components_before, computer_section, device_entry, device_section, disk_at,
    disk_entry, disk_mounted_at, disks_of, disks_upto, header_item, home_section, is_root,
    mount_in, mount_label, mount_points_upto, mounts_upto, player_entry, reserved_upto, sidebar,
    trash_section, uppercase, usage_of, user_place, user_places, user_relevant_fs, DirsPresent,
    DiskView, ItemView, PlacesController, SidebarWords,
};
use crate::text::words_of;
use crate::unix_path::{components, file_name, lossy, plain_name, UnixPath};
use crate::user_dirs::UserDirs;
use vstd::prelude::*;
use vstd::utf8::*;

verus! {

// ---------------------------------------------------------------------------
// Mounts and disks
// ---------------------------------------------------------------------------

/// Every line that mounts a file system for users at a path for users is listed,
/// and what is listed stands in such a line.
pub proof fn mounts_for_users_are_listed(ls: Seq<Seq<char>>, n: int, p: Seq<u8>)
    requires
        0 <= n <= ls.len(),
    ensures
        has_path(mounts_upto(ls, n), p) <==> exists|i: int|
            0 <= i < n && mount_in(#[trigger] ls[i]) is Some && components(mount_in(ls[i])->0)
                == components(p),
    decreases n,
{
    if n > 0 {
        mounts_for_users_are_listed(ls, n - 1, p);
        let before = mounts_upto(ls, n - 1);
        let all = mounts_upto(ls, n);
        if has_path(before, p) {
            let k = choose|k: int|
                0 <= k < before.len() && components(#[trigger] before[k]) == components(p);
            assert(components(all[k]) == components(p));
            let i = choose|i: int|
                0 <= i < n - 1 && mount_in(#[trigger] ls[i]) is Some && components(
                    mount_in(ls[i])->0,
                ) == components(p);
            assert(mount_in(ls[i]) is Some);
        }
        if mount_in(ls[n - 1]) is Some && components(mount_in(ls[n - 1])->0) == components(p) {
            let q = mount_in(ls[n - 1])->0;
            if has_path(before, q) {
                let k = choose|k: int|
                    0 <= k < before.len() && components(#[trigger] before[k]) == components(q);
                assert(components(all[k]) == components(p));
            } else {
                assert(components(all[before.len() as int]) == components(p));
            }
        }
        if has_path(all, p) && !has_path(before, p) {
            let k = choose|k: int|
                0 <= k < all.len() && components(#[trigger] all[k]) == components(p);
            if k < before.len() {
                assert(components(before[k]) == components(p));
            }
            assert(mount_in(ls[n - 1]) is Some);
        }
    }
}

/// The path of a mount is the second word of its line and the type of the file
/// system the third.
pub proof fn a_mount_is_the_second_word(line: Seq<char>)
    ensures
        mount_in(line) is Some <==> words_of(line).len() >= 3 && user_relevant_fs(words_of(line)[2])
            && !blocked_path(lossy(encode_utf8(words_of(line)[1]))),
        mount_in(line) matches Some(p) ==> p == encode_utf8(words_of(line)[1]),
{
}

/// What lies below a path that is not for users is not for users either.
pub proof fn what_is_below_a_blocked_path_is_blocked(s: Seq<char>, more: Seq<char>)
    requires
        blocked_path(s),
    ensures
        blocked_path(s + more),
{
    assert forall|p: Seq<char>| #[trigger] p.is_prefix_of(s) implies p.is_prefix_of(s + more) by {
        assert(p =~= (s + more).subrange(0, p.len() as int)) by {
            assert(p =~= s.subrange(0, p.len() as int));
        }
    }
}

/// A disk is called by the name of its mount point with a capital letter; the
/// letters behind it stay as they are.
pub proof fn disks_are_called_by_their_mount_point(p: Seq<u8>)
    requires
        components(p) != components(encode_utf8("/"@)),
    ensures
        file_name(p) matches Some(n) ==> lossy(n).skip(1).is_suffix_of(mount_label(p)) || lossy(
            n,
        ).len() == 0,
        file_name(p) is None ==> mount_label(p) == lossy(p),
{
    if file_name(p) is Some {
        let s = lossy(file_name(p)->0);
        if s.len() > 0 {
            let t = capitalized(s);
            let x = s.skip(1);
            assert(t.subrange(t.len() - x.len(), t.len() as int) =~= x);
        }
    }
}

/// The space of a path is that of the first measure of it.
pub proof fn the_first_measure_counts(usage: Seq<(UnixPath, DiskSpace)>, p: Seq<u8>)
    ensures
        match usage_of(usage, p) {
            Some(u) => exists|i: int|
                0 <= i < usage.len() && components((#[trigger] usage[i]).0@) == components(p)
                    && usage[i].1 == u && forall|k: int|
                    0 <= k < i ==> components((#[trigger] usage[k]).0@) != components(p),
            None => forall|k: int|
                0 <= k < usage.len() ==> components((#[trigger] usage[k]).0@) != components(p),
        },
    decreases usage.len(),
{
    if usage.len() > 0 {
        let rest = usage.skip(1);
        if components(usage[0].0@) != components(p) {
            the_first_measure_counts(rest, p);
            match usage_of(usage, p) {
                Some(u) => {
                    let i = choose|i: int|
                        0 <= i < rest.len() && components((#[trigger] rest[i]).0@) == components(p)
                            && rest[i].1 == u && forall|k: int|
                            0 <= k < i ==> components((#[trigger] rest[k]).0@) != components(p);
                    assert(usage[i + 1] == rest[i]);
                    assert forall|k: int| 0 <= k < i + 1 implies components(
                        (#[trigger] usage[k]).0@,
                    ) != components(p) by {
                        if k > 0 {
                            assert(usage[k] == rest[k - 1]);
                        }
                    }
                },
                None => {
                    assert forall|k: int| 0 <= k < usage.len() implies components(
                        (#[trigger] usage[k]).0@,
                    ) != components(p) by {
                        if k > 0 {
                            assert(usage[k] == rest[k - 1]);
                        }
                    }
                },
            }
        }
    }
}

/// A mount is shown as a disk exactly where no device is mounted there, its space
/// was measured and it is at least a quarter of a gigabyte; with that space.
pub proof fn large_mounts_are_disks(c: PlacesController, p: Seq<u8>)
    ensures
        disk_at(c, p) is Some <==> usage_of(c.disk_usage@, p) is Some && usage_of(
            c.disk_usage@,
            p,
        )->0.total >= 0x1000_0000 && forall|i: int|
            0 <= i < c.devices@.len() && (#[trigger] c.devices@[i].mount_point) is Some
                ==> components(c.devices@[i].mount_point->0@) != components(p),
        disk_at(c, p) matches Some(d) ==> d.path == p && d.label == mount_label(p) && d.free
            == usage_of(c.disk_usage@, p)->0.free && d.total == usage_of(c.disk_usage@, p)->0.total,
{
}

/// The disks are those of the mounts, in the order of the mounts.
pub proof fn each_mount_is_looked_at(c: PlacesController, mounts: Seq<Seq<u8>>, n: int)
    requires
        0 <= n <= mounts.len(),
    ensures
        exactly_those(
            disks_upto(c, mounts, n),
            n,
            |i: int| disk_at(c, mounts[i]) is Some,
            |i: int| disk_at(c, mounts[i])->0,
        ),
    decreases n,
{
    let keep = |i: int| disk_at(c, mounts[i]) is Some;
    let item = |i: int| disk_at(c, mounts[i])->0;
    if n > 0 {
        each_mount_is_looked_at(c, mounts, n - 1);
        lemma_picked(disks_upto(c, mounts, n - 1), n - 1, keep, item);
    } else {
        lemma_picked_none(keep, item);
    }
}

proof fn lemma_bytes_order(a: Seq<u8>, b: Seq<u8>, c: Seq<u8>)
    ensures
        bytes_before(a, b) ==> !bytes_before(b, a) && a != b,
        a != b && !bytes_before(a, b) ==> bytes_before(b, a),
        bytes_before(a, b) && bytes_before(b, c) ==> bytes_before(a, c),
    decreases a.len(),
{
    if a.len() > 0 && b.len() > 0 {
        let x = a.skip(1);
        let y = b.skip(1);
        if c.len() > 0 {
            lemma_bytes_order(x, y, c.skip(1));
        } else {
            lemma_bytes_order(x, y, c);
        }
        if a[0] == b[0] && x == y {
            assert(a =~= seq![a[0]] + x);
            assert(b =~= seq![b[0]] + y);
        }
    } else if a.len() == 0 && b.len() == 0 {
        assert(a =~= b);
    }
}

proof fn lemma_component_order(a: Seq<u8>, b: Seq<u8>, c: Seq<u8>)
    ensures
        component_before(a, b) ==> !component_before(b, a) && a != b,
        a != b && !component_before(a, b) ==> component_before(b, a),
        component_before(a, b) && component_before(b, c) ==> component_before(a, c),
{
    lemma_bytes_order(a, b, c);
    lemma_bytes_order(b, a, c);
}

proof fn lemma_components_order(a: Seq<Seq<u8>>, b: Seq<Seq<u8>>, c: Seq<Seq<u8>>)
    ensures
        components_before(a, b) ==> !components_before(b, a) && a != b,
        a != b && !components_before(a, b) ==> components_before(b, a),
        components_before(a, b) && components_before(b, c) ==> components_before(a, c),
    decreases a.len(),
{
    if a.len() > 0 && b.len() > 0 {
        let x = a.skip(1);
        let y = b.skip(1);
        lemma_component_order(a[0], b[0], b[0]);
        if c.len() > 0 {
            lemma_component_order(a[0], b[0], c[0]);
            lemma_components_order(x, y, c.skip(1));
        } else {
            lemma_components_order(x, y, c);
        }
        if a[0] == b[0] && x == y {
            assert(a =~= seq![a[0]] + x);
            assert(b =~= seq![b[0]] + y);
        }
    } else if a.len() == 0 && b.len() == 0 {
        assert(a =~= b);
    }
}

proof fn lemma_by_mount_path()
    ensures
        orders(by_mount_path()),
{
    let before = by_mount_path();
    assert forall|a: DiskView, b: DiskView| #[trigger] before(a, b) implies !before(b, a) by {
        lemma_components_order(components(a.path), components(b.path), components(b.path));
    }
    assert forall|a: DiskView, b: DiskView, c: DiskView| #[trigger]
        before(a, b) && #[trigger] before(b, c) implies before(a, c) by {
        lemma_components_order(components(a.path), components(b.path), components(c.path));
    }
    assert forall|a: DiskView, b: DiskView, c: DiskView|
        !#[trigger] before(a, b) && !#[trigger] before(b, c) implies !before(a, c) by {
        let x = components(a.path);
        let y = components(b.path);
        let z = components(c.path);
        lemma_components_order(x, y, z);
        lemma_components_order(y, z, x);
        lemma_components_order(z, y, x);
        lemma_components_order(x, z, y);
    }
}

/// Every mount that is a disk is listed once, and nothing else is; the root comes
/// first, and the others are in the order of their paths.
pub proof fn the_disks_are_listed_in_order(
    c: PlacesController,
    mounts: Seq<Seq<u8>>,
    d: DiskView,
    i: int,
    j: int,
)
    requires
        0 <= i < j < disks_of(c, mounts).len(),
    ensures
        disks_of(c, mounts).contains(d) <==> exists|k: int|
            0 <= k < mounts.len() && disk_at(c, #[trigger] mounts[k]) == Some(d),
        is_root(disks_of(c, mounts)[j].path) ==> is_root(disks_of(c, mounts)[i].path),
        !is_root(disks_of(c, mounts)[i].path) ==> !components_before(
            components(disks_of(c, mounts)[j].path),
            components(disks_of(c, mounts)[i].path),
        ),
{
    lemma_disks(c, mounts, d);
    lemma_by_mount_path();
    let found = disks_upto(c, mounts, mounts.len() as int);
    ranked_is_ordered(found, by_mount_path());
    let ds = disks_of(c, mounts);
    assert(!by_mount_path()(ds[j], ds[i]));
}

proof fn lemma_disks(c: PlacesController, mounts: Seq<Seq<u8>>, d: DiskView)
    ensures
        disks_of(c, mounts).contains(d) <==> exists|k: int|
            0 <= k < mounts.len() && disk_at(c, #[trigger] mounts[k]) == Some(d),
{
    lemma_by_mount_path();
    let n = mounts.len() as int;
    let found = disks_upto(c, mounts, n);
    let keep = |i: int| disk_at(c, mounts[i]) is Some;
    let item = |i: int| disk_at(c, mounts[i])->0;
    ranked_is_ordered(found, by_mount_path());
    each_mount_is_looked_at(c, mounts, n);
    picked_items_are_those_kept(found, n, keep, item, d);
    if exists|i: int| 0 <= i < n && #[trigger] keep(i) && item(i) == d {
        let i = choose|i: int| 0 <= i < n && #[trigger] keep(i) && item(i) == d;
        assert(disk_at(c, mounts[i]) == Some(d));
    }
    if exists|k: int| 0 <= k < mounts.len() && disk_at(c, #[trigger] mounts[k]) == Some(d) {
        let k = choose|k: int| 0 <= k < mounts.len() && disk_at(c, #[trigger] mounts[k]) == Some(d);
        assert(keep(k) && item(k) == d);
    }
}

// ---------------------------------------------------------------------------
// The sidebar
// ---------------------------------------------------------------------------

/// Every bookmark is listed, at the end and in the order of the bookmarks, by its
/// name and with its path.
pub proof fn the_bookmarks_are_listed(
    c: PlacesController,
    words: SidebarWords,
    mounts: Seq<Seq<u8>>,
    dirs: UserDirs,
    there: DirsPresent,
    trash: Option<UnixPath>,
    i: int,
)
    requires
        0 <= i < c.bookmarks@.len(),
    ensures
        ({
            let items = sidebar(c, words, mounts, dirs, there, trash);
            let from = items.len() - c.bookmarks@.len();
            &&& from > 0
            &&& items[from + i].label == c.bookmarks@[i].0
            &&& items[from + i].path == lossy(encode_utf8(c.bookmarks@[i].1))
            &&& items[from + i].is_bookmark
            &&& !items[from + i].is_section_header
            &&& items[from + i].accepts_drop
            &&& items[from - 1].is_section_header
        }),
{
}

/// Nothing but the bookmarks is listed as one.
pub proof fn nothing_else_is_a_bookmark(
    c: PlacesController,
    words: SidebarWords,
    mounts: Seq<Seq<u8>>,
    dirs: UserDirs,
    there: DirsPresent,
    trash: Option<UnixPath>,
    k: int,
)
    requires
        0 <= k < sidebar(c, words, mounts, dirs, there, trash).len() - c.bookmarks@.len(),
    ensures
        !sidebar(c, words, mounts, dirs, there, trash)[k].is_bookmark,
{
    let places = computer_section(c, words, mounts) + seq![header_item(words.places@)]
        + home_section(dirs.home, disks_of(c, mounts)) + user_places(dirs, there) + trash_section(
        trash,
        words.trash@,
    ) + device_section(c, words);
    let marks = bookmark_section(c, words);
    if k >= places.len() {
        assert(sidebar(c, words, mounts, dirs, there, trash)[k] == marks[k - places.len()]);
    } else {
        assert(sidebar(c, words, mounts, dirs, there, trash)[k] == places[k]);
    }
}

proof fn lemma_disk_listed(
    c: PlacesController,
    words: SidebarWords,
    mounts: Seq<Seq<u8>>,
    dirs: UserDirs,
    there: DirsPresent,
    trash: Option<UnixPath>,
    i: int,
)
    requires
        0 <= i < disks_of(c, mounts).len(),
    ensures
        ({
            let items = sidebar(c, words, mounts, dirs, there, trash);
            i + 1 < items.len() && items[i + 1] == disk_entry(disks_of(c, mounts)[i])
        }),
{
    let ds = disks_of(c, mounts);
    assert(computer_section(c, words, mounts)[i + 1] == disk_entry(ds[i]));
}

/// The disks come first, behind the heading of the computer, each with its space.
pub proof fn the_disks_come_first(
    c: PlacesController,
    words: SidebarWords,
    mounts: Seq<Seq<u8>>,
    dirs: UserDirs,
    there: DirsPresent,
    trash: Option<UnixPath>,
    i: int,
)
    requires
        0 <= i < disks_of(c, mounts).len(),
    ensures
        ({
            let items = sidebar(c, words, mounts, dirs, there, trash);
            let d = disks_of(c, mounts)[i];
            &&& items[0].is_section_header
            &&& items[0].label == words.computer@
            &&& i + 1 < items.len()
            &&& items[i + 1].label == d.label
            &&& items[i + 1].path == lossy(d.path)
            &&& items[i + 1].has_usage
            &&& items[i + 1].usage.free == d.free
            &&& items[i + 1].usage.total == d.total
            &&& items[i + 1].accepts_drop
            &&& !items[i + 1].is_section_header
        }),
{
    lemma_disk_listed(c, words, mounts, dirs, there, trash, i);
}

/// Every device is listed: one that is mounted with its mount point, where
/// something can be dropped, the others with their name in the disk service,
/// where nothing can.
pub proof fn the_devices_are_listed(
    c: PlacesController,
    words: SidebarWords,
    mounts: Seq<Seq<u8>>,
    dirs: UserDirs,
    there: DirsPresent,
    trash: Option<UnixPath>,
    i: int,
)
    requires
        0 <= i < c.devices@.len(),
    ensures
        ({
            let items = sidebar(c, words, mounts, dirs, there, trash);
            exists|k: int|
                0 <= k < items.len() && !(#[trigger] items[k]).is_section_header
                    && items[k].accepts_drop == (c.devices@[i].mount_point is Some) && match c.devices@[i].mount_point {
                    Some(m) => items[k].path == lossy(m@) && items[k].label
                        == c.devices@[i].label@,
                    None => items[k].path == "udisks:"@ + c.devices@[i].object_path@
                        && items[k].label == c.devices@[i].label@ + " "@ + words.not_mounted@,
                }
        }),
{
    let items = sidebar(c, words, mounts, dirs, there, trash);
    let before = computer_section(c, words, mounts) + seq![header_item(words.places@)]
        + home_section(dirs.home, disks_of(c, mounts)) + user_places(dirs, there) + trash_section(
        trash,
        words.trash@,
    );
    let at = 1 + c.players@.len() + i;
    let k = before.len() + at;
    assert(items[k] == device_section(c, words)[at]);
}

/// The home folder is listed unless a disk is mounted there, and the trash where
/// there is one.
pub proof fn home_and_trash_are_listed(
    c: PlacesController,
    words: SidebarWords,
    mounts: Seq<Seq<u8>>,
    dirs: UserDirs,
    there: DirsPresent,
    trash: Option<UnixPath>,
)
    ensures
        ({
            let items = sidebar(c, words, mounts, dirs, there, trash);
            &&& dirs.home is Some && !disk_mounted_at(disks_of(c, mounts), dirs.home->0@)
                ==> exists|k: int|
                0 <= k < items.len() && (#[trigger] items[k]).path == lossy(dirs.home->0@)
                    && !items[k].is_section_header && items[k].label == "Home"@
                    && items[k].icon_name == "folder-home"@
            &&& trash is Some ==> exists|k: int|
                0 <= k < items.len() && (#[trigger] items[k]).is_trash && items[k].path == lossy(
                    trash->0@,
                ) && items[k].label == words.trash@
        }),
{
    let items = sidebar(c, words, mounts, dirs, there, trash);
    let head = computer_section(c, words, mounts) + seq![header_item(words.places@)];
    let home = home_section(dirs.home, disks_of(c, mounts));
    if home.len() > 0 {
        assert(items[head.len() as int] == home[0]);
    }
    let more = head + home + user_places(dirs, there);
    if trash is Some {
        assert(items[more.len() as int] == trash_section(trash, words.trash@)[0]);
    }
}

/// Each folder of the user is listed exactly where it is known and there.
pub proof fn folders_of_the_user_are_listed(
    dir: Option<UnixPath>,
    there: bool,
    label: Seq<char>,
    icon: Seq<char>,
)
    ensures
        dir is Some && there ==> {
            &&& user_place(dir, there, label, icon).len() == 1
            &&& user_place(dir, there, label, icon)[0].path == lossy(dir->0@)
            &&& user_place(dir, there, label, icon)[0].label == label
            &&& user_place(dir, there, label, icon)[0].icon_name == icon
            &&& !user_place(dir, there, label, icon)[0].is_section_header
            &&& !user_place(dir, there, label, icon)[0].is_trash
            &&& !user_place(dir, there, label, icon)[0].is_bookmark
        },
        dir is None || !there ==> user_place(dir, there, label, icon).len() == 0,
{
}

/// One more folder of the user that is there is one more place.
pub proof fn each_folder_of_the_user_counts(d: UserDirs, there: DirsPresent)
    ensures
        user_places(d, there).len() == (if d.desktop is Some && there.desktop {
            1int
        } else {
            0
        }) + (if d.documents is Some && there.documents {
            1int
        } else {
            0
        }) + (if d.downloads is Some && there.downloads {
            1int
        } else {
            0
        }) + (if d.pictures is Some && there.pictures {
            1int
        } else {
            0
        }) + (if d.music is Some && there.music {
            1int
        } else {
            0
        }) + (if d.videos is Some && there.videos {
            1int
        } else {
            0
        }) + (if d.templates is Some && there.templates {
            1int
        } else {
            0
        }) + (if d.public is Some && there.public {
            1int
        } else {
            0
        }),
{
}

/// A media player is listed by its name, with where it is plugged in as its path,
/// and nothing can be dropped on it.
pub proof fn players_are_listed(
    c: PlacesController,
    words: SidebarWords,
    mounts: Seq<Seq<u8>>,
    dirs: UserDirs,
    there: DirsPresent,
    trash: Option<UnixPath>,
    i: int,
)
    requires
        0 <= i < c.players@.len(),
    ensures
        ({
            let items = sidebar(c, words, mounts, dirs, there, trash);
            exists|k: int|
                0 <= k < items.len() && (#[trigger] items[k]).label == c.players@[i].label@
                    && !items[k].accepts_drop && !items[k].is_section_header && items[k].path
                    == "mtp:loc"@ + decimal(c.players@[i].location_id as nat)
        }),
{
    let items = sidebar(c, words, mounts, dirs, there, trash);
    let before = computer_section(c, words, mounts) + seq![header_item(words.places@)]
        + home_section(dirs.home, disks_of(c, mounts)) + user_places(dirs, there) + trash_section(
        trash,
        words.trash@,
    );
    let at = 1 + i;
    let k = before.len() + at;
    assert(items[k] == device_section(c, words)[at]);
    assert(items[k] == player_entry(c.players@[i].label@, c.players@[i].location_id));
}

/// The paths that need no bookmark are those of all items but the headings and
/// the bookmarks.
pub proof fn listed_places_need_no_bookmark(items: Seq<ItemView>, n: int)
    requires
        0 <= n <= items.len(),
    ensures
        exactly_those(
            reserved_upto(items, n),
            n,
            |i: int|
                items[i].path.len() > 0 && !items[i].is_bookmark && !items[i].is_section_header,
            |i: int| items[i].path,
        ),
    decreases n,
{
    let keep = |i: int|
        items[i].path.len() > 0 && !items[i].is_bookmark && !items[i].is_section_header;
    let item = |i: int| items[i].path;
    if n > 0 {
        listed_places_need_no_bookmark(items, n - 1);
        lemma_picked(reserved_upto(items, n - 1), n - 1, keep, item);
    } else {
        lemma_picked_none(keep, item);
    }
}

/// The space of every mounted device is measured.
pub proof fn mounted_devices_are_measured(ds: Seq<DeviceInfo>, n: int)
    requires
        0 <= n <= ds.len(),
    ensures
        exactly_those(
            mount_points_upto(ds, n),
            n,
            |i: int| ds[i].mount_point is Some,
            |i: int| ds[i].mount_point->0@,
        ),
    decreases n,
{
    let keep = |i: int| ds[i].mount_point is Some;
    let item = |i: int| ds[i].mount_point->0@;
    if n > 0 {
        mounted_devices_are_measured(ds, n - 1);
        lemma_picked(mount_points_upto(ds, n - 1), n - 1, keep, item);
    } else {
        lemma_picked_none(keep, item);
    }
}

/// Toggling a bookmark takes it away where it is, and adds it where it is not and
/// the path is not listed otherwise; the other bookmarks stay.
pub proof fn toggling_a_bookmark(
    marks: Seq<(Seq<char>, Seq<char>)>,
    reserved: Seq<Seq<char>>,
    path: Seq<char>,
    name: Seq<char>,
    m: (Seq<char>, Seq<char>),
)
    ensures
        ({
            let after = bookmark_toggled(marks, reserved, path, name);
            let marked = exists|i: int| 0 <= i < marks.len() && (#[trigger] marks[i]).1 == path;
            &&& m.1 != path ==> (after.contains(m) <==> marks.contains(m))
            &&& marked && m.1 == path ==> !after.contains(m)
            &&& !marked && !reserved.contains(path) ==> after == marks.push((name, path))
            &&& !marked && reserved.contains(path) ==> after == marks
        }),
{
    broadcast use vstd::seq_lib::group_filter_ensures;

    let after = bookmark_toggled(marks, reserved, path, name);
    lemma_find_path(marks, path);
    let i = find_path(marks, path);
    if i < marks.len() {
        assert(marks[i].1 == path);
        let keep = other_path(path);
        remove_undoes_add(marks, name, path);
        if m.1 != path && marks.contains(m) {
            let k = choose|k: int| 0 <= k < marks.len() && marks[k] == m;
            assert(keep(marks[k]));
            assert(marks.filter(keep).contains(marks[k]));
        }
    } else {
        if !reserved.contains(path) {
            assert(after == marks.push((name, path)));
            assert(after.last() == (name, path));
            if marks.contains(m) {
                let k = choose|k: int| 0 <= k < marks.len() && marks[k] == m;
                assert(after[k] == m);
            }
            if m.1 != path && after.contains(m) {
                let k = choose|k: int| 0 <= k < after.len() && after[k] == m;
                assert(marks[k] == m);
            }
        }
    }
}

/// A mounted device shows its space where that was measured, and how much of it is
/// free of how much; otherwise it shows none.
pub proof fn devices_show_their_space(
    d: DeviceView,
    usage: Option<DiskSpace>,
    words: Seq<char>,
)
    ensures
        ({
            let item = device_entry(d, usage, words);
            let shows = d.mount_point is Some && usage is Some && usage->0.total > 0;
            &&& item.has_usage <==> shows
            &&& shows ==> item.usage == usage->0
            &&& shows ==> size_text(usage->0.free as nat).is_prefix_of(item.usage_text)
            &&& shows ==> size_text(usage->0.total as nat).is_suffix_of(item.usage_text)
        }),
{
    if d.mount_point is Some && usage is Some && usage->0.total > 0 {
        let t = device_entry(d, usage, words).usage_text;
        let a = size_text(usage->0.free as nat);
        let b = size_text(usage->0.total as nat);
        assert(a =~= t.subrange(0, a.len() as int));
        assert(b =~= t.subrange(t.len() - b.len(), t.len() as int));
    }
}

/// A disk is called by the last part of where it is mounted, which begins with a
/// capital; the one that holds everything has a name of its own.
pub proof fn disks_are_called_with_a_capital(p: Seq<u8>)
    ensures
        is_root(p) ==> mount_label(p) == "Filesystem"@,
        !is_root(p) ==> (file_name(p) matches Some(n) ==> (lossy(n).len() > 0 ==> mount_label(p)
            == uppercase(lossy(n)[0]) + lossy(n).skip(1))),
{
}

/// Whether an item leads to a folder, under a name and with an icon.
pub open spec fn stands_for(
    item: ItemView,
    path: Seq<u8>,
    label: Seq<char>,
    icon: Seq<char>,
) -> bool {
    &&& item.path == lossy(path)
    &&& item.label == label
    &&& item.icon_name == icon
    &&& item.accepts_drop
    &&& !item.is_section_header
}

proof fn lemma_longer(s: Seq<ItemView>, u: Seq<ItemView>, x: ItemView)
    requires
        s.contains(x) || u.contains(x),
    ensures
        (s + u).contains(x),
{
    if s.contains(x) {
        let k = choose|k: int| 0 <= k < s.len() && s[k] == x;
        assert((s + u)[k] == x);
    } else {
        let k = choose|k: int| 0 <= k < u.len() && u[k] == x;
        assert((s + u)[s.len() + k] == x);
    }
}

proof fn lemma_one_of_the_folders(d: UserDirs, there: DirsPresent, x: ItemView)
    requires
        user_place(d.desktop, there.desktop, "Desktop"@, "folder-desktop"@).contains(x)
            || user_place(d.documents, there.documents, "Documents"@, "folder-documents"@).contains(x)
            || user_place(d.downloads, there.downloads, "Downloads"@, "folder-downloads"@).contains(x)
            || user_place(d.pictures, there.pictures, "Pictures"@, "folder-pictures"@).contains(x)
            || user_place(d.music, there.music, "Music"@, "folder-music"@).contains(x)
            || user_place(d.videos, there.videos, "Videos"@, "folder-videos"@).contains(x)
            || user_place(d.templates, there.templates, "Templates"@, "folder-templates"@).contains(x)
            || user_place(d.public, there.public, "Public"@, "folder-public"@).contains(x),
    ensures
        user_places(d, there).contains(x),
{
    let u0 = user_place(d.desktop, there.desktop, "Desktop"@, "folder-desktop"@);
    let u1 = user_place(d.documents, there.documents, "Documents"@, "folder-documents"@);
    let u2 = user_place(d.downloads, there.downloads, "Downloads"@, "folder-downloads"@);
    let u3 = user_place(d.pictures, there.pictures, "Pictures"@, "folder-pictures"@);
    let u4 = user_place(d.music, there.music, "Music"@, "folder-music"@);
    let u5 = user_place(d.videos, there.videos, "Videos"@, "folder-videos"@);
    let u6 = user_place(d.templates, there.templates, "Templates"@, "folder-templates"@);
    let u7 = user_place(d.public, there.public, "Public"@, "folder-public"@);
    let t1 = u0 + u1;
    if u0.contains(x) || u1.contains(x) {
        lemma_longer(u0, u1, x);
    }
    let t2 = t1 + u2;
    if t1.contains(x) || u2.contains(x) {
        lemma_longer(t1, u2, x);
    }
    let t3 = t2 + u3;
    if t2.contains(x) || u3.contains(x) {
        lemma_longer(t2, u3, x);
    }
    let t4 = t3 + u4;
    if t3.contains(x) || u4.contains(x) {
        lemma_longer(t3, u4, x);
    }
    let t5 = t4 + u5;
    if t4.contains(x) || u5.contains(x) {
        lemma_longer(t4, u5, x);
    }
    let t6 = t5 + u6;
    if t5.contains(x) || u6.contains(x) {
        lemma_longer(t5, u6, x);
    }
    let t7 = t6 + u7;
    if t6.contains(x) || u7.contains(x) {
        lemma_longer(t6, u7, x);
    }
    assert(user_places(d, there) == t7);
}

proof fn lemma_listed(d: UserDirs, there: DirsPresent, dir: UnixPath, label: Seq<char>, icon: Seq<char>)
    requires
        user_places(d, there).contains(user_place(Some(dir), true, label, icon)[0]),
    ensures
        exists|k: int|
            0 <= k < user_places(d, there).len() && #[trigger] stands_for(
                user_places(d, there)[k],
                dir@,
                label,
                icon,
            ),
{
    let v = user_places(d, there);
    let x = user_place(Some(dir), true, label, icon)[0];
    let k = choose|k: int| 0 <= k < v.len() && v[k] == x;
    assert(stands_for(v[k], dir@, label, icon));
}

/// Each folder of the user that is there is listed under its own name and with its
/// own icon.
pub proof fn each_folder_of_the_user_is_itself(d: UserDirs, there: DirsPresent)
    ensures
        ({
            let v = user_places(d, there);
            &&& d.desktop is Some && there.desktop ==> exists|k: int|
                0 <= k < v.len() && #[trigger] stands_for(v[k], d.desktop->0@, "Desktop"@, "folder-desktop"@)
            &&& d.documents is Some && there.documents ==> exists|k: int|
                0 <= k < v.len() && #[trigger] stands_for(v[k], d.documents->0@, "Documents"@, "folder-documents"@)
            &&& d.downloads is Some && there.downloads ==> exists|k: int|
                0 <= k < v.len() && #[trigger] stands_for(v[k], d.downloads->0@, "Downloads"@, "folder-downloads"@)
            &&& d.pictures is Some && there.pictures ==> exists|k: int|
                0 <= k < v.len() && #[trigger] stands_for(v[k], d.pictures->0@, "Pictures"@, "folder-pictures"@)
            &&& d.music is Some && there.music ==> exists|k: int|
                0 <= k < v.len() && #[trigger] stands_for(v[k], d.music->0@, "Music"@, "folder-music"@)
            &&& d.videos is Some && there.videos ==> exists|k: int|
                0 <= k < v.len() && #[trigger] stands_for(v[k], d.videos->0@, "Videos"@, "folder-videos"@)
            &&& d.templates is Some && there.templates ==> exists|k: int|
                0 <= k < v.len() && #[trigger] stands_for(v[k], d.templates->0@, "Templates"@, "folder-templates"@)
            &&& d.public is Some && there.public ==> exists|k: int|
                0 <= k < v.len() && #[trigger] stands_for(v[k], d.public->0@, "Public"@, "folder-public"@)
        }),
{
    if d.desktop is Some && there.desktop {
        let x = user_place(d.desktop, there.desktop, "Desktop"@, "folder-desktop"@);
        assert(x.contains(x[0]));
        lemma_one_of_the_folders(d, there, x[0]);
        lemma_listed(d, there, d.desktop->0, "Desktop"@, "folder-desktop"@);
    }
    if d.documents is Some && there.documents {
        let x = user_place(d.documents, there.documents, "Documents"@, "folder-documents"@);
        assert(x.contains(x[0]));
        lemma_one_of_the_folders(d, there, x[0]);
        lemma_listed(d, there, d.documents->0, "Documents"@, "folder-documents"@);
    }
    if d.downloads is Some && there.downloads {
        let x = user_place(d.downloads, there.downloads, "Downloads"@, "folder-downloads"@);
        assert(x.contains(x[0]));
        lemma_one_of_the_folders(d, there, x[0]);
        lemma_listed(d, there, d.downloads->0, "Downloads"@, "folder-downloads"@);
    }
    if d.pictures is Some && there.pictures {
        let x = user_place(d.pictures, there.pictures, "Pictures"@, "folder-pictures"@);
        assert(x.contains(x[0]));
        lemma_one_of_the_folders(d, there, x[0]);
        lemma_listed(d, there, d.pictures->0, "Pictures"@, "folder-pictures"@);
    }
    if d.music is Some && there.music {
        let x = user_place(d.music, there.music, "Music"@, "folder-music"@);
        assert(x.contains(x[0]));
        lemma_one_of_the_folders(d, there, x[0]);
        lemma_listed(d, there, d.music->0, "Music"@, "folder-music"@);
    }
    if d.videos is Some && there.videos {
        let x = user_place(d.videos, there.videos, "Videos"@, "folder-videos"@);
        assert(x.contains(x[0]));
        lemma_one_of_the_folders(d, there, x[0]);
        lemma_listed(d, there, d.videos->0, "Videos"@, "folder-videos"@);
    }
    if d.templates is Some && there.templates {
        let x = user_place(d.templates, there.templates, "Templates"@, "folder-templates"@);
        assert(x.contains(x[0]));
        lemma_one_of_the_folders(d, there, x[0]);
        lemma_listed(d, there, d.templates->0, "Templates"@, "folder-templates"@);
    }
    if d.public is Some && there.public {
        let x = user_place(d.public, there.public, "Public"@, "folder-public"@);
        assert(x.contains(x[0]));
        lemma_one_of_the_folders(d, there, x[0]);
        lemma_listed(d, there, d.public->0, "Public"@, "folder-public"@);
    }
}

/// Names are ordered by the first byte in which they differ, and a name comes before
/// one that it begins.
pub proof fn names_are_ordered_by_their_bytes(
    common: Seq<u8>,
    x: u8,
    y: u8,
    s: Seq<u8>,
    t: Seq<u8>,
)
    ensures
        x < y ==> bytes_before(common + seq![x] + s, common + seq![y] + t),
        x > y ==> !bytes_before(common + seq![x] + s, common + seq![y] + t),
        bytes_before(common, common + seq![x] + s),
        !bytes_before(common + seq![x] + s, common),
    decreases common.len(),
{
    let a = common + seq![x] + s;
    let b = common + seq![y] + t;
    if common.len() > 0 {
        let rest = common.skip(1);
        names_are_ordered_by_their_bytes(rest, x, y, s, t);
        assert(a.skip(1) =~= rest + seq![x] + s);
        assert(b.skip(1) =~= rest + seq![y] + t);
    }
}

/// Paths are ordered by the first part in which they differ: the root comes first,
/// then this folder, then the one above, then names by their bytes.
pub proof fn paths_are_ordered_by_their_parts(
    common: Seq<Seq<u8>>,
    x: Seq<u8>,
    y: Seq<u8>,
    s: Seq<Seq<u8>>,
    t: Seq<Seq<u8>>,
)
    requires
        x != y,
        plain_name(y),
    ensures
        plain_name(x) ==> (components_before(common + seq![x] + s, common + seq![y] + t)
            <==> bytes_before(x, y)),
        x == seq![47u8] || x == seq![46u8] || x == seq![46u8, 46u8] ==> components_before(
            common + seq![x] + s,
            common + seq![y] + t,
        ),
        components_before(common, common + seq![y] + t),
    decreases common.len(),
{
    let a = common + seq![x] + s;
    let b = common + seq![y] + t;
    assert(y != seq![47u8]) by {
        if y == seq![47u8] {
            assert(y.contains(seq![47u8][0]));
        }
    }
    assert(plain_name(x) ==> x != seq![47u8]) by {
        if x == seq![47u8] {
            assert(x.contains(seq![47u8][0]));
        }
    }
    if common.len() > 0 {
        let rest = common.skip(1);
        paths_are_ordered_by_their_parts(rest, x, y, s, t);
        assert(a.skip(1) =~= rest + seq![x] + s);
        assert(b.skip(1) =~= rest + seq![y] + t);
        let c = common[0];
        lemma_not_before_itself(c);
    }
}

proof fn lemma_not_before_itself(c: Seq<u8>)
    ensures
        !bytes_before(c, c),
    decreases c.len(),
{
    if c.len() > 0 {
        lemma_not_before_itself(c.skip(1));
    }
}

} // verus!
