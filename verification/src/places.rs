//! The sidebar: mounted file systems, the user's directories, devices and
//! bookmarks.
use crate::bookmarks::{find_path, upserted, without_path, BookmarkStore};
use crate::devices::{DeviceInfo, DeviceView, MtpDeviceEntry};
use crate::disk_space::DiskSpace;
use crate::format_util::{human_size, size_text};
use crate::listing::{contains_path, has_path};
use crate::copy_run::path_views;
use crate::num_text::{decimal, decimal_text};
use crate::ordering::{inserted, ranked};
use crate::state::AppState;
use crate::text::{
    chars_of, contains_text, lines, lines_of, opt_view, same_text, string_of, strip_prefix,
    text_starts_with, views, without_prefix, words, words_of,
};
use crate::types::{FileType, Location, Place};
use crate::unix_path::{
    byte_views, components, dot, dot_dot, file_name, lossy, lossy_text, slash, UnixPath,
};
use crate::user_dirs::{opt_path, UserDirs};
use vstd::prelude::*;
use vstd::std_specs::hash::*;
use vstd::std_specs::iter::IteratorSpec;
use vstd::string::*;
use vstd::utf8::*;

verus! {

broadcast use group_hash_axioms;

// ---------------------------------------------------------------------------
// Mounted file systems
// ---------------------------------------------------------------------------

/// What `char::to_uppercase` makes of a character.
pub uninterp spec fn uppercase(c: char) -> Seq<char>;

/// Calls `char::to_uppercase`. The result depends on the character alone; the
/// Unicode case tables behind it are not restated.
#[verifier::external_body]
fn to_uppercase(c: char) -> (r: String)
    ensures
        r@ == uppercase(c),
{
    c.to_uppercase().collect()
}

/// The file systems that hold a user's files.
pub open spec fn user_relevant_fs(t: Seq<char>) -> bool {
    ||| t == "ext2"@
    ||| t == "ext3"@
    ||| t == "ext4"@
    ||| t == "btrfs"@
    ||| t == "xfs"@
    ||| t == "zfs"@
    ||| t == "f2fs"@
    ||| t == "jfs"@
    ||| t == "reiserfs"@
    ||| t == "vfat"@
    ||| t == "exfat"@
    ||| t == "ntfs"@
    ||| t == "ntfs3"@
    ||| t == "fuseblk"@
    ||| t == "hfsplus"@
    ||| t == "apfs"@
}

/// Whether a file system holds a user's files.
pub fn is_user_relevant_fs(t: &str) -> (r: bool)
    ensures
        r == user_relevant_fs(t@),
{
    same_text(t, "ext2") || same_text(t, "ext3") || same_text(t, "ext4") || same_text(t, "btrfs")
        || same_text(t, "xfs") || same_text(t, "zfs") || same_text(t, "f2fs") || same_text(t, "jfs")
        || same_text(t, "reiserfs") || same_text(t, "vfat") || same_text(t, "exfat") || same_text(
        t,
        "ntfs",
    ) || same_text(t, "ntfs3") || same_text(t, "fuseblk") || same_text(t, "hfsplus") || same_text(
        t,
        "apfs",
    )
}

/// The starts of paths that are of no interest to a user.
pub open spec fn blocked_path(s: Seq<char>) -> bool {
    ||| "/proc"@.is_prefix_of(s)
    ||| "/sys"@.is_prefix_of(s)
    ||| "/dev"@.is_prefix_of(s)
    ||| "/run"@.is_prefix_of(s)
    ||| "/snap"@.is_prefix_of(s)
    ||| "/var/snap"@.is_prefix_of(s)
    ||| "/var/lib/docker"@.is_prefix_of(s)
    ||| "/var/lib/containers"@.is_prefix_of(s)
    ||| "/var/lib/lxc"@.is_prefix_of(s)
    ||| "/var/lib/lxd"@.is_prefix_of(s)
    ||| "/var/lib/flatpak/exports"@.is_prefix_of(s)
    ||| "/boot"@.is_prefix_of(s)
}

/// Whether a mount point is of interest to a user.
pub fn is_user_relevant_path(p: &UnixPath) -> (r: bool)
    ensures
        r == !blocked_path(lossy(p@)),
{
    let t = p.display();
    let s: &str = t.as_str();
    !(text_starts_with(s, "/proc") || text_starts_with(s, "/sys") || text_starts_with(s, "/dev")
        || text_starts_with(s, "/run") || text_starts_with(s, "/snap") || text_starts_with(
        s,
        "/var/snap",
    ) || text_starts_with(s, "/var/lib/docker") || text_starts_with(s, "/var/lib/containers")
        || text_starts_with(s, "/var/lib/lxc") || text_starts_with(s, "/var/lib/lxd")
        || text_starts_with(s, "/var/lib/flatpak/exports") || text_starts_with(s, "/boot"))
}

/// A text whose first character was replaced by `first`.
pub open spec fn capitalized(s: Seq<char>) -> Seq<char> {
    if s.len() == 0 {
        s
    } else {
        uppercase(s[0]) + s.skip(1)
    }
}

/// What a mounted file system is called.
pub open spec fn mount_label(p: Seq<u8>) -> Seq<char> {
    if components(p) == components(encode_utf8("/"@)) {
        "Filesystem"@
    } else {
        match file_name(p) {
            Some(n) => capitalized(lossy(n)),
            None => lossy(p),
        }
    }
}

/// What a mounted file system is called.
pub fn pretty_mount_label(p: &UnixPath) -> (r: String)
    ensures
        r@ == mount_label(p@),
{
    if p.same(&UnixPath::new("/")) {
        return "Filesystem".to_owned();
    }
    match p.file_name() {
        Some(n) => {
            let s = lossy_text(&n);
            let v = chars_of(s.as_str());
            if v.len() == 0 {
                s
            } else {
                let len: usize = v.len();
                assert(v@.subrange(1, len as int) =~= v@.skip(1));
                let mut r = to_uppercase(v[0]);
                r.append(string_of(&v[1..len]).as_str());
                r
            }
        },
        None => p.display(),
    }
}

/// The mount point in a line of the mount table, if it is of interest.
pub open spec fn mount_in(line: Seq<char>) -> Option<Seq<u8>> {
    let ws = words_of(line);
    if ws.len() < 3 || !user_relevant_fs(ws[2]) || blocked_path(lossy(encode_utf8(ws[1]))) {
        None
    } else {
        Some(encode_utf8(ws[1]))
    }
}

/// The mount points in the first `n` lines that are of interest, each once.
pub open spec fn mounts_upto(ls: Seq<Seq<char>>, n: int) -> Seq<Seq<u8>>
    decreases n,
{
    if n <= 0 {
        Seq::empty()
    } else {
        let before = mounts_upto(ls, n - 1);
        match mount_in(ls[n - 1]) {
            Some(p) => if has_path(before, p) {
                before
            } else {
                before.push(p)
            },
            None => before,
        }
    }
}

/// The mounted file systems of interest in the text of the mount table.
pub open spec fn mounts_in(text: Seq<char>) -> Seq<Seq<u8>> {
    mounts_upto(lines_of(text), lines_of(text).len() as int)
}

fn mount_of_line(line: &[char]) -> (r: Option<UnixPath>)
    ensures
        opt_path(r) == mount_in(line@),
{
    let ws = words(line);
    if ws.len() < 3 {
        return None;
    }
    if !is_user_relevant_fs(string_of(&ws[2]).as_str()) {
        return None;
    }
    let p = UnixPath::new(string_of(&ws[1]).as_str());
    if !is_user_relevant_path(&p) {
        return None;
    }
    Some(p)
}

/// The mounted file systems of interest: no path twice.
pub fn computer_mount_candidates(text: &str) -> (r: Vec<UnixPath>)
    ensures
        path_views(r@) == mounts_in(text@),
{
    let all = lines(&chars_of(text));
    let ghost ls = lines_of(text@);
    let mut out: Vec<UnixPath> = Vec::new();
    let mut i: usize = 0;
    assert(path_views(out@) =~= mounts_upto(ls, 0));
    while i < all.len()
        invariant
            i <= all@.len(),
            all@.len() == ls.len(),
            ls == lines_of(text@),
            forall|k: int| 0 <= k < all@.len() ==> (#[trigger] all@[k])@ == ls[k],
            path_views(out@) == mounts_upto(ls, i as int),
        decreases all@.len() - i,
    {
        if let Some(p) = mount_of_line(&all[i]) {
            if !contains_path(&out, &p) {
                let ghost before = out@;
                out.push(p);
                assert(path_views(out@) =~= path_views(before).push(p@));
            }
        }
        i += 1;
    }
    out
}

/// No mount point is listed twice.
pub proof fn mounts_are_listed_once(text: Seq<char>, i: int, j: int)
    requires
        0 <= i < j < mounts_in(text).len(),
    ensures
        components(mounts_in(text)[i]) != components(mounts_in(text)[j]),
{
    lemma_mounts_once(lines_of(text), lines_of(text).len() as int, i, j);
}

proof fn lemma_mounts_once(ls: Seq<Seq<char>>, n: int, i: int, j: int)
    requires
        0 <= i < j < mounts_upto(ls, n).len(),
    ensures
        components(mounts_upto(ls, n)[i]) != components(mounts_upto(ls, n)[j]),
    decreases n,
{
    if n > 0 {
        let before = mounts_upto(ls, n - 1);
        if j < before.len() {
            lemma_mounts_once(ls, n - 1, i, j);
        } else {
            assert(components(before[i]) != components(mount_in(ls[n - 1])->0));
        }
    }
}

// ---------------------------------------------------------------------------
// The order of disks
// ---------------------------------------------------------------------------

/// How a component of a path ranks before its bytes are looked at.
pub open spec fn component_rank(c: Seq<u8>) -> int {
    if c == seq![slash()] {
        0
    } else if c == seq![dot()] {
        1
    } else if dot_dot(c) {
        2
    } else {
        3
    }
}

/// Whether bytes come before others.
pub open spec fn bytes_before(a: Seq<u8>, b: Seq<u8>) -> bool
    decreases a.len(),
{
    if b.len() == 0 {
        false
    } else if a.len() == 0 {
        true
    } else {
        a[0] < b[0] || (a[0] == b[0] && bytes_before(a.skip(1), b.skip(1)))
    }
}

/// Whether a component comes before another.
pub open spec fn component_before(a: Seq<u8>, b: Seq<u8>) -> bool {
    component_rank(a) < component_rank(b) || (component_rank(a) == component_rank(b)
        && bytes_before(a, b))
}

/// Whether a list of components comes before another.
pub open spec fn components_before(a: Seq<Seq<u8>>, b: Seq<Seq<u8>>) -> bool
    decreases a.len(),
{
    if b.len() == 0 {
        false
    } else if a.len() == 0 {
        true
    } else {
        component_before(a[0], b[0]) || (a[0] == b[0] && components_before(a.skip(1), b.skip(1)))
    }
}

/// A mounted file system with its space.
#[derive(Debug)]
pub struct ComputerDisk {
    pub label: String,
    pub path: UnixPath,
    pub free: u64,
    pub total: u64,
}

/// A mounted file system in mathematical terms.
pub struct DiskView {
    pub label: Seq<char>,
    pub path: Seq<u8>,
    pub free: u64,
    pub total: u64,
}

impl View for ComputerDisk {
    type V = DiskView;

    open spec fn view(&self) -> DiskView {
        DiskView { label: self.label@, path: self.path@, free: self.free, total: self.total }
    }
}

/// The views of a list of file systems.
pub open spec fn disk_views(v: Seq<ComputerDisk>) -> Seq<DiskView> {
    v.map_values(|d: ComputerDisk| d@)
}

/// Whether a path is the root.
pub open spec fn is_root(p: Seq<u8>) -> bool {
    components(p) == components(encode_utf8("/"@))
}

/// Orders file systems: the root first, then by path.
pub open spec fn by_mount_path() -> spec_fn(DiskView, DiskView) -> bool {
    |a: DiskView, b: DiskView| disk_before(a.path, b.path)
}

/// Whether a mount point comes before another: the root first, then by path.
pub open spec fn disk_before(a: Seq<u8>, b: Seq<u8>) -> bool {
    if is_root(a) != is_root(b) {
        is_root(a)
    } else {
        components_before(components(a), components(b))
    }
}

fn rank_of(c: &[u8]) -> (r: u8)
    ensures
        r == component_rank(c@),
{
    if c.len() == 1 && c[0] == 47u8 {
        assert(c@ =~= seq![slash()]);
        0
    } else if c.len() == 1 && c[0] == 46u8 {
        assert(c@ =~= seq![dot()]);
        assert(seq![slash()][0] != c@[0]);
        1
    } else if c.len() == 2 && c[0] == 46u8 && c[1] == 46u8 {
        assert(c@ =~= seq![dot(), dot()]);
        assert(c@.len() != seq![slash()].len());
        assert(c@.len() != seq![dot()].len());
        2
    } else {
        assert(c@ == seq![slash()] ==> c@.len() == 1 && c@[0] == slash());
        assert(c@ == seq![dot()] ==> c@.len() == 1 && c@[0] == dot());
        assert(dot_dot(c@) ==> c@.len() == 2 && c@[0] == dot() && c@[1] == dot());
        3
    }
}

fn is_bytes_before(a: &[u8], b: &[u8]) -> (r: bool)
    ensures
        r == bytes_before(a@, b@),
{
    let mut i: usize = 0;
    assert(a@.skip(0) =~= a@);
    assert(b@.skip(0) =~= b@);
    while i < a.len() && i < b.len() && a[i] == b[i]
        invariant
            i <= a@.len(),
            i <= b@.len(),
            bytes_before(a@, b@) == bytes_before(a@.skip(i as int), b@.skip(i as int)),
        decreases a@.len() - i,
    {
        assert(a@.skip(i as int).skip(1) =~= a@.skip(i + 1));
        assert(b@.skip(i as int).skip(1) =~= b@.skip(i + 1));
        i += 1;
    }
    i < b.len() && (i == a.len() || a[i] < b[i])
}

fn is_components_before(a: &Vec<Vec<u8>>, b: &Vec<Vec<u8>>) -> (r: bool)
    ensures
        r == components_before(byte_views(a@), byte_views(b@)),
{
    let ghost x = byte_views(a@);
    let ghost y = byte_views(b@);
    let mut i: usize = 0;
    assert(x.skip(0) =~= x);
    assert(y.skip(0) =~= y);
    while i < a.len() && i < b.len() && crate::unix_path::same_bytes(&a[i], &b[i])
        invariant
            i <= a@.len(),
            i <= b@.len(),
            x == byte_views(a@),
            y == byte_views(b@),
            components_before(x, y) == components_before(x.skip(i as int), y.skip(i as int)),
        decreases a@.len() - i,
    {
        proof {
            assert(x.skip(i as int)[0] == a@[i as int]@);
            assert(y.skip(i as int)[0] == b@[i as int]@);
            assert(x.skip(i as int).skip(1) =~= x.skip(i + 1));
            assert(y.skip(i as int).skip(1) =~= y.skip(i + 1));
            lemma_component_irreflexive(a@[i as int]@);
        }
        i += 1;
    }
    if i >= b.len() {
        return false;
    }
    if i >= a.len() {
        return true;
    }
    proof {
        assert(x.skip(i as int)[0] == a@[i as int]@);
        assert(y.skip(i as int)[0] == b@[i as int]@);
    }
    let p: u8 = rank_of(&a[i]);
    let q: u8 = rank_of(&b[i]);
    p < q || (p == q && is_bytes_before(&a[i], &b[i]))
}

proof fn lemma_bytes_irreflexive(a: Seq<u8>)
    ensures
        !bytes_before(a, a),
    decreases a.len(),
{
    if a.len() > 0 {
        lemma_bytes_irreflexive(a.skip(1));
    }
}

proof fn lemma_component_irreflexive(a: Seq<u8>)
    ensures
        !component_before(a, a),
{
    lemma_bytes_irreflexive(a);
}

fn is_disk_before(a: &UnixPath, b: &UnixPath) -> (r: bool)
    ensures
        r == disk_before(a@, b@),
{
    let root = UnixPath::new("/");
    let x: bool = a.same(&root);
    let y: bool = b.same(&root);
    if x != y {
        x
    } else {
        is_components_before(&a.components(), &b.components())
    }
}

fn insert_disk(v: &mut Vec<ComputerDisk>, d: ComputerDisk)
    ensures
        disk_views(final(v)@) == inserted(disk_views(old(v)@), d@, by_mount_path()),
{
    let ghost s = disk_views(v@);
    let n: usize = v.len();
    let mut at: usize = n;
    assert(s.take(n as int) =~= s);
    assert(s.skip(n as int) =~= Seq::empty());
    assert(inserted(s, d@, by_mount_path()) =~= inserted(s.take(n as int), d@, by_mount_path())
        + s.skip(n as int));
    while at > 0 && is_disk_before(&d.path, &v[at - 1].path)
        invariant
            at <= n,
            n == v@.len(),
            v@ == old(v)@,
            s == disk_views(v@),
            inserted(s, d@, by_mount_path()) == inserted(s.take(at as int), d@, by_mount_path())
                + s.skip(at as int),
        decreases at,
    {
        proof {
            let t = s.take(at as int);
            assert(t.last() == v@[at - 1]@);
            assert(t.drop_last() =~= s.take(at - 1));
            let m = inserted(t.drop_last(), d@, by_mount_path());
            assert(m.push(t.last()) + s.skip(at as int) =~= m + s.skip(at - 1));
        }
        at -= 1;
    }
    proof {
        let t = s.take(at as int);
        if at > 0 {
            assert(t.last() == v@[at - 1]@);
        }
        assert(inserted(t, d@, by_mount_path()) == t.push(d@));
    }
    v.insert(at, d);
    assert(disk_views(v@) =~= s.take(at as int).push(d@) + s.skip(at as int));
}

// ---------------------------------------------------------------------------
// Items
// ---------------------------------------------------------------------------

/// An item of the sidebar.
#[derive(Debug)]
pub struct PlaceItemData {
    pub label: String,
    pub icon_name: String,
    pub path: String,
    pub is_section_header: bool,
    pub is_bookmark: bool,
    pub is_trash: bool,
    pub accepts_drop: bool,
    pub has_usage: bool,
    /// The free and the total bytes that the usage bar shows.
    pub usage: DiskSpace,
    pub usage_text: String,
}

/// An item of the sidebar in mathematical terms.
pub struct ItemView {
    pub label: Seq<char>,
    pub icon_name: Seq<char>,
    pub path: Seq<char>,
    pub is_section_header: bool,
    pub is_bookmark: bool,
    pub is_trash: bool,
    pub accepts_drop: bool,
    pub has_usage: bool,
    pub usage: DiskSpace,
    pub usage_text: Seq<char>,
}

impl View for PlaceItemData {
    type V = ItemView;

    open spec fn view(&self) -> ItemView {
        ItemView {
            label: self.label@,
            icon_name: self.icon_name@,
            path: self.path@,
            is_section_header: self.is_section_header,
            is_bookmark: self.is_bookmark,
            is_trash: self.is_trash,
            accepts_drop: self.accepts_drop,
            has_usage: self.has_usage,
            usage: self.usage,
            usage_text: self.usage_text@,
        }
    }
}

/// The views of a list of items.
pub open spec fn item_views(v: Seq<PlaceItemData>) -> Seq<ItemView> {
    v.map_values(|i: PlaceItemData| i@)
}

/// An item without anything special.
pub open spec fn plain_item(label: Seq<char>, icon: Seq<char>, path: Seq<char>) -> ItemView {
    ItemView {
        label,
        icon_name: icon,
        path,
        is_section_header: false,
        is_bookmark: false,
        is_trash: false,
        accepts_drop: true,
        has_usage: false,
        usage: DiskSpace { free: 0, total: 0 },
        usage_text: Seq::empty(),
    }
}

/// The header of a section.
pub open spec fn header_item(label: Seq<char>) -> ItemView {
    ItemView {
        is_section_header: true,
        accepts_drop: false,
        ..plain_item(label, Seq::empty(), Seq::empty())
    }
}

/// How much of a file system is free.
pub open spec fn free_text(d: DiskSpace) -> Seq<char> {
    size_text(d.free as nat) + " free of "@ + size_text(d.total as nat)
}

/// The item of a mounted file system.
pub open spec fn disk_entry(d: DiskView) -> ItemView {
    let usage = DiskSpace { free: d.free, total: d.total };
    ItemView {
        has_usage: true,
        usage,
        usage_text: free_text(usage),
        ..plain_item(d.label, "disk-removable"@, lossy(d.path))
    }
}

/// The item of a media player.
pub open spec fn player_entry(label: Seq<char>, location_id: u64) -> ItemView {
    ItemView {
        accepts_drop: false,
        ..plain_item(label, "disk-removable"@, "mtp:loc"@ + decimal(location_id as nat))
    }
}

/// The item of a device, by its mount point or to be mounted by a click.
pub open spec fn device_entry(
    d: DeviceView,
    usage: Option<DiskSpace>,
    not_mounted: Seq<char>,
) -> ItemView {
    match d.mount_point {
        Some(p) => {
            let base = plain_item(d.label, "disk-removable"@, lossy(p));
            match usage {
                Some(u) => if u.total > 0 {
                    ItemView { has_usage: true, usage: u, usage_text: free_text(u), ..base }
                } else {
                    base
                },
                None => base,
            }
        },
        None => ItemView {
            accepts_drop: false,
            ..plain_item(
                d.label + " "@ + not_mounted,
                "disk-removable"@,
                "udisks:"@ + d.object_path,
            )
        },
    }
}

fn plain(label: String, icon: &str, path: String) -> (r: PlaceItemData)
    ensures
        r@ == plain_item(label@, icon@, path@),
{
    PlaceItemData {
        label,
        icon_name: icon.to_owned(),
        path,
        is_section_header: false,
        is_bookmark: false,
        is_trash: false,
        accepts_drop: true,
        has_usage: false,
        usage: DiskSpace { free: 0, total: 0 },
        usage_text: String::new(),
    }
}

/// The header of a section.
pub fn header(label: &str) -> (r: PlaceItemData)
    ensures
        r@ == header_item(label@),
{
    let mut i = plain(label.to_owned(), "", String::new());
    proof {
        reveal_strlit("");
    }
    assert(""@ =~= Seq::<char>::empty());
    i.is_section_header = true;
    i.accepts_drop = false;
    i
}

/// The item of a directory.
pub fn item(label: &str, icon: &str, path: &UnixPath, is_bookmark: bool) -> (r: PlaceItemData)
    ensures
        r@ == (ItemView { is_bookmark, ..plain_item(label@, icon@, lossy(path@)) }),
{
    let mut i = plain(label.to_owned(), icon, path.display());
    i.is_bookmark = is_bookmark;
    i
}

fn free_label(d: DiskSpace) -> (r: String)
    ensures
        r@ == free_text(d),
{
    let mut s = human_size(d.free);
    s.append(" free of ");
    s.append(human_size(d.total).as_str());
    s
}

/// The item of a mounted file system.
pub fn disk_item(d: &ComputerDisk) -> (r: PlaceItemData)
    ensures
        r@ == disk_entry(d@),
{
    let usage = DiskSpace { free: d.free, total: d.total };
    let mut i = plain(d.label.clone(), "disk-removable", d.path.display());
    i.has_usage = true;
    i.usage = usage;
    i.usage_text = free_label(usage);
    i
}

// ---------------------------------------------------------------------------
// The user's directories
// ---------------------------------------------------------------------------

/// A directory of the user, if it is set and there.
pub open spec fn user_place(
    dir: Option<UnixPath>,
    there: bool,
    label: Seq<char>,
    icon: Seq<char>,
) -> Seq<ItemView> {
    match dir {
        Some(p) => if there {
            seq![plain_item(label, icon, lossy(p@))]
        } else {
            Seq::empty()
        },
        None => Seq::empty(),
    }
}

/// Which of the user's directories are there.
#[derive(Clone, Copy, Debug, PartialEq, Eq, Structural)]
pub struct DirsPresent {
    pub desktop: bool,
    pub documents: bool,
    pub downloads: bool,
    pub pictures: bool,
    pub music: bool,
    pub videos: bool,
    pub templates: bool,
    pub public: bool,
}

/// The user's directories that are there.
pub open spec fn user_places(d: UserDirs, there: DirsPresent) -> Seq<ItemView> {
    user_place(d.desktop, there.desktop, "Desktop"@, "folder-desktop"@) + user_place(
        d.documents,
        there.documents,
        "Documents"@,
        "folder-documents"@,
    ) + user_place(d.downloads, there.downloads, "Downloads"@, "folder-downloads"@) + user_place(
        d.pictures,
        there.pictures,
        "Pictures"@,
        "folder-pictures"@,
    ) + user_place(d.music, there.music, "Music"@, "folder-music"@) + user_place(
        d.videos,
        there.videos,
        "Videos"@,
        "folder-videos"@,
    ) + user_place(d.templates, there.templates, "Templates"@, "folder-templates"@) + user_place(
        d.public,
        there.public,
        "Public"@,
        "folder-public"@,
    )
}

fn push_user_place(
    items: &mut Vec<PlaceItemData>,
    dir: &Option<UnixPath>,
    there: bool,
    label: &str,
    icon: &str,
)
    ensures
        item_views(final(items)@) == item_views(old(items)@) + user_place(
            *dir,
            there,
            label@,
            icon@,
        ),
{
    if let Some(p) = dir {
        if there {
            items.push(item(label, icon, p, false));
        }
    }
    assert(item_views(items@) =~= item_views(old(items)@) + user_place(*dir, there, label@, icon@));
}

/// The user's directories that are there.
pub fn xdg_dirs(d: &UserDirs, there: DirsPresent) -> (r: Vec<PlaceItemData>)
    ensures
        item_views(r@) == user_places(*d, there),
{
    let mut v: Vec<PlaceItemData> = Vec::new();
    push_user_place(&mut v, &d.desktop, there.desktop, "Desktop", "folder-desktop");
    push_user_place(&mut v, &d.documents, there.documents, "Documents", "folder-documents");
    push_user_place(&mut v, &d.downloads, there.downloads, "Downloads", "folder-downloads");
    push_user_place(&mut v, &d.pictures, there.pictures, "Pictures", "folder-pictures");
    push_user_place(&mut v, &d.music, there.music, "Music", "folder-music");
    push_user_place(&mut v, &d.videos, there.videos, "Videos", "folder-videos");
    push_user_place(&mut v, &d.templates, there.templates, "Templates", "folder-templates");
    push_user_place(&mut v, &d.public, there.public, "Public", "folder-public");
    assert(item_views(v@) =~= user_places(*d, there));
    v
}

// ---------------------------------------------------------------------------
// The whole sidebar
// ---------------------------------------------------------------------------

/// The words of the sidebar in the user's language.
#[derive(Debug)]
pub struct SidebarWords {
    pub computer: String,
    pub places: String,
    pub devices: String,
    pub bookmarks: String,
    pub trash: String,
    pub not_mounted: String,
}

/// What the sidebar is made from.
pub struct PlacesController {
    pub bookmarks: BookmarkStore,
    /// The disks of the disk service.
    pub devices: Vec<DeviceInfo>,
    pub players: Vec<MtpDeviceEntry>,
    /// The space of each mount point that was measured.
    pub disk_usage: Vec<(UnixPath, DiskSpace)>,
}

/// The space that was measured for a mount point.
pub open spec fn usage_of(usage: Seq<(UnixPath, DiskSpace)>, p: Seq<u8>) -> Option<DiskSpace>
    decreases usage.len(),
{
    if usage.len() == 0 {
        None
    } else if components(usage[0].0@) == components(p) {
        Some(usage[0].1)
    } else {
        usage_of(usage.skip(1), p)
    }
}

fn find_usage(usage: &Vec<(UnixPath, DiskSpace)>, p: &UnixPath) -> (r: Option<DiskSpace>)
    ensures
        r == usage_of(usage@, p@),
{
    let mut i: usize = 0;
    assert(usage@.skip(0) =~= usage@);
    while i < usage.len()
        invariant
            i <= usage@.len(),
            usage_of(usage@, p@) == usage_of(usage@.skip(i as int), p@),
        decreases usage@.len() - i,
    {
        assert(usage@.skip(i as int)[0] == usage@[i as int]);
        if usage[i].0.same(p) {
            return Some(usage[i].1);
        }
        assert(usage@.skip(i as int).skip(1) =~= usage@.skip(i + 1));
        i += 1;
    }
    None
}

/// Whether a device is mounted at a path.
pub open spec fn device_mounted_at(ds: Seq<DeviceInfo>, p: Seq<u8>) -> bool {
    exists|i: int|
        0 <= i < ds.len() && (#[trigger] ds[i].mount_point matches Some(m) && components(m@)
            == components(p))
}

fn is_device_mount(ds: &Vec<DeviceInfo>, p: &UnixPath) -> (r: bool)
    ensures
        r == device_mounted_at(ds@, p@),
{
    let mut i: usize = 0;
    while i < ds.len()
        invariant
            i <= ds@.len(),
            forall|k: int|
                0 <= k < i ==> !(#[trigger] ds@[k].mount_point matches Some(m) && components(m@)
                    == components(p@)),
        decreases ds@.len() - i,
    {
        if let Some(m) = &ds[i].mount_point {
            if m.same(p) {
                return true;
            }
        }
        i += 1;
    }
    false
}

/// The smallest file system that is shown: a quarter of a gigabyte.
pub const MIN_DISK: u64 = 268_435_456;

/// A mount point as a disk of the computer: not one of a device, and measured
/// as large enough.
pub open spec fn disk_at(c: PlacesController, p: Seq<u8>) -> Option<DiskView> {
    if device_mounted_at(c.devices@, p) {
        None
    } else {
        match usage_of(c.disk_usage@, p) {
            Some(u) => if u.total < MIN_DISK {
                None
            } else {
                Some(DiskView { label: mount_label(p), path: p, free: u.free, total: u.total })
            },
            None => None,
        }
    }
}

/// The disks among the first `n` mount points.
pub open spec fn disks_upto(c: PlacesController, mounts: Seq<Seq<u8>>, n: int) -> Seq<DiskView>
    decreases n,
{
    if n <= 0 {
        Seq::empty()
    } else {
        match disk_at(c, mounts[n - 1]) {
            Some(d) => disks_upto(c, mounts, n - 1).push(d),
            None => disks_upto(c, mounts, n - 1),
        }
    }
}

/// The disks of the computer, the root first and then by path.
pub open spec fn disks_of(c: PlacesController, mounts: Seq<Seq<u8>>) -> Seq<DiskView> {
    ranked(disks_upto(c, mounts, mounts.len() as int), by_mount_path())
}

/// Whether one of the disks is mounted at a path.
pub open spec fn disk_mounted_at(ds: Seq<DiskView>, p: Seq<u8>) -> bool {
    exists|i: int| 0 <= i < ds.len() && components((#[trigger] ds[i]).path) == components(p)
}

/// The items of the computer section.
pub open spec fn computer_section(
    c: PlacesController,
    words: SidebarWords,
    mounts: Seq<Seq<u8>>,
) -> Seq<ItemView> {
    seq![header_item(words.computer@)] + disks_of(c, mounts).map_values(
        |d: DiskView| disk_entry(d),
    )
}

/// The item of the home directory, unless it is a disk of its own.
pub open spec fn home_section(home: Option<UnixPath>, ds: Seq<DiskView>) -> Seq<ItemView> {
    match home {
        Some(h) => if disk_mounted_at(ds, h@) {
            Seq::empty()
        } else {
            seq![plain_item("Home"@, "folder-home"@, lossy(h@))]
        },
        None => Seq::empty(),
    }
}

/// The item of the trash.
pub open spec fn trash_section(trash: Option<UnixPath>, label: Seq<char>) -> Seq<ItemView> {
    match trash {
        Some(p) => seq![ItemView { is_trash: true, ..plain_item(label, "trash"@, lossy(p@)) }],
        None => Seq::empty(),
    }
}

/// The items of the devices.
pub open spec fn device_section(c: PlacesController, words: SidebarWords) -> Seq<ItemView> {
    let head = if c.devices@.len() > 0 || c.players@.len() > 0 {
        seq![header_item(words.devices@)]
    } else {
        Seq::empty()
    };
    head + c.players@.map_values(|p: MtpDeviceEntry| player_entry(p.label@, p.location_id))
        + c.devices@.map_values(
        |d: DeviceInfo|
            device_entry(
                d@,
                match d.mount_point {
                    Some(m) => usage_of(c.disk_usage@, m@),
                    None => None,
                },
                words.not_mounted@,
            ),
    )
}

/// The items of the bookmarks.
pub open spec fn bookmark_section(c: PlacesController, words: SidebarWords) -> Seq<ItemView> {
    if c.bookmarks@.len() == 0 {
        Seq::empty()
    } else {
        seq![header_item(words.bookmarks@)] + c.bookmarks@.map_values(
            |b: (Seq<char>, Seq<char>)|
                ItemView {
                    is_bookmark: true,
                    ..plain_item(b.0, "folder"@, lossy(encode_utf8(b.1)))
                },
        )
    }
}

/// The whole sidebar.
pub open spec fn sidebar(
    c: PlacesController,
    words: SidebarWords,
    mounts: Seq<Seq<u8>>,
    dirs: UserDirs,
    there: DirsPresent,
    trash: Option<UnixPath>,
) -> Seq<ItemView> {
    computer_section(c, words, mounts) + seq![header_item(words.places@)] + home_section(
        dirs.home,
        disks_of(c, mounts),
    ) + user_places(dirs, there) + trash_section(trash, words.trash@) + device_section(c, words)
        + bookmark_section(c, words)
}

fn append_items(items: &mut Vec<PlaceItemData>, more: Vec<PlaceItemData>)
    ensures
        item_views(final(items)@) == item_views(old(items)@) + item_views(more@),
{
    let mut rest = more;
    items.append(&mut rest);
    assert(item_views(items@) =~= item_views(old(items)@) + item_views(more@));
}

fn push_item(items: &mut Vec<PlaceItemData>, i: PlaceItemData)
    ensures
        item_views(final(items)@) == item_views(old(items)@).push(i@),
{
    items.push(i);
    assert(item_views(items@) =~= item_views(old(items)@).push(i@));
}

impl PlacesController {
    fn disks(&self, mounts: &Vec<UnixPath>) -> (r: Vec<ComputerDisk>)
        ensures
            disk_views(r@) == disks_of(*self, path_views(mounts@)),
    {
        let ghost ms = path_views(mounts@);
        let mut out: Vec<ComputerDisk> = Vec::new();
        let mut i: usize = 0;
        assert(disk_views(out@) =~= ranked(disks_upto(*self, ms, 0), by_mount_path()));
        while i < mounts.len()
            invariant
                i <= mounts@.len(),
                ms == path_views(mounts@),
                disk_views(out@) == ranked(disks_upto(*self, ms, i as int), by_mount_path()),
            decreases mounts@.len() - i,
        {
            let p = &mounts[i];
            assert(ms[i as int] == p@);
            if !is_device_mount(&self.devices, p) {
                if let Some(u) = find_usage(&self.disk_usage, p) {
                    if u.total >= MIN_DISK {
                        let d = ComputerDisk {
                            label: pretty_mount_label(p),
                            path: p.clone(),
                            free: u.free,
                            total: u.total,
                        };
                        proof {
                            let before = disks_upto(*self, ms, i as int);
                            assert(before.push(d@).drop_last() =~= before);
                            assert(before.push(d@).last() == d@);
                        }
                        insert_disk(&mut out, d);
                    }
                }
            }
            i += 1;
        }
        out
    }

    fn players_items(&self) -> (r: Vec<PlaceItemData>)
        ensures
            item_views(r@) == self.players@.map_values(
                |p: MtpDeviceEntry| player_entry(p.label@, p.location_id),
            ),
    {
        let mut r: Vec<PlaceItemData> = Vec::new();
        let mut i: usize = 0;
        while i < self.players.len()
            invariant
                i <= self.players@.len(),
                r@.len() == i,
                forall|k: int|
                    0 <= k < i ==> (#[trigger] r@[k])@ == player_entry(
                        self.players@[k].label@,
                        self.players@[k].location_id,
                    ),
            decreases self.players@.len() - i,
        {
            let p = &self.players[i];
            let mut path: String = "mtp:loc".to_owned();
            path.append(decimal_text(p.location_id).as_str());
            let mut it = plain(p.label.clone(), "disk-removable", path);
            it.accepts_drop = false;
            r.push(it);
            i += 1;
        }
        assert(item_views(r@) =~= self.players@.map_values(
            |p: MtpDeviceEntry| player_entry(p.label@, p.location_id),
        ));
        r
    }

    fn device_item(&self, d: &DeviceInfo, not_mounted: &str) -> (r: PlaceItemData)
        ensures
            r@ == device_entry(
                d@,
                match d.mount_point {
                    Some(m) => usage_of(self.disk_usage@, m@),
                    None => None,
                },
                not_mounted@,
            ),
    {
        match &d.mount_point {
            Some(m) => {
                let mut it = plain(d.label.clone(), "disk-removable", m.display());
                if let Some(u) = find_usage(&self.disk_usage, m) {
                    if u.total > 0 {
                        it.has_usage = true;
                        it.usage = u;
                        it.usage_text = free_label(u);
                    }
                }
                it
            },
            None => {
                let mut label = d.label.clone();
                label.append(" ");
                label.append(not_mounted);
                let mut path: String = "udisks:".to_owned();
                path.append(d.object_path.as_str());
                let mut it = plain(label, "disk-removable", path);
                it.accepts_drop = false;
                it
            },
        }
    }

    fn device_items(&self, words: &SidebarWords) -> (r: Vec<PlaceItemData>)
        ensures
            item_views(r@) == device_section(*self, *words),
    {
        let mut items: Vec<PlaceItemData> = Vec::new();
        if self.devices.len() > 0 || self.players.len() > 0 {
            push_item(&mut items, header(words.devices.as_str()));
        }
        append_items(&mut items, self.players_items());
        let ghost fixed = item_views(items@);
        let mut i: usize = 0;
        let mut r: Vec<PlaceItemData> = Vec::new();
        while i < self.devices.len()
            invariant
                i <= self.devices@.len(),
                r@.len() == i,
                forall|k: int|
                    0 <= k < i ==> (#[trigger] r@[k])@ == device_entry(
                        self.devices@[k]@,
                        match self.devices@[k].mount_point {
                            Some(m) => usage_of(self.disk_usage@, m@),
                            None => None,
                        },
                        words.not_mounted@,
                    ),
            decreases self.devices@.len() - i,
        {
            r.push(self.device_item(&self.devices[i], words.not_mounted.as_str()));
            i += 1;
        }
        append_items(&mut items, r);
        assert(item_views(items@) =~= device_section(*self, *words));
        items
    }

    fn bookmark_items(&self, words: &SidebarWords) -> (r: Vec<PlaceItemData>)
        ensures
            item_views(r@) == bookmark_section(*self, *words),
    {
        let mut items: Vec<PlaceItemData> = Vec::new();
        if self.bookmarks.entries.len() == 0 {
            assert(item_views(items@) =~= bookmark_section(*self, *words));
            return items;
        }
        items.push(header(words.bookmarks.as_str()));
        let mut i: usize = 0;
        while i < self.bookmarks.entries.len()
            invariant
                i <= self.bookmarks.entries@.len(),
                items@.len() == i + 1,
                items@[0]@ == header_item(words.bookmarks@),
                forall|k: int|
                    0 <= k < i ==> (#[trigger] items@[k + 1])@ == (ItemView {
                        is_bookmark: true,
                        ..plain_item(
                            self.bookmarks@[k].0,
                            "folder"@,
                            lossy(encode_utf8(self.bookmarks@[k].1)),
                        )
                    }),
            decreases self.bookmarks.entries@.len() - i,
        {
            let b = &self.bookmarks.entries[i];
            let path = UnixPath::new(b.path.as_str());
            let it = item(b.name.as_str(), "folder", &path, true);
            items.push(it);
            i += 1;
        }
        proof {
            let want = bookmark_section(*self, *words);
            assert forall|k: int| 0 <= k < want.len() implies item_views(items@)[k] == want[k] by {
                if k > 0 {
                    assert(item_views(items@)[k] == items@[(k - 1) + 1]@);
                }
            }
            assert(item_views(items@) =~= want);
        }
        items
    }

    /// The whole sidebar: `mounts` are the mounted file systems of interest,
    /// `trash` the directory of trashed files if it is there.
    pub fn rebuild(
        &self,
        words: &SidebarWords,
        mounts: &Vec<UnixPath>,
        dirs: &UserDirs,
        there: DirsPresent,
        trash: &Option<UnixPath>,
    ) -> (r: Vec<PlaceItemData>)
        ensures
            item_views(r@) == sidebar(
                *self,
                *words,
                path_views(mounts@),
                *dirs,
                there,
                *trash,
            ),
    {
        let ghost ms = path_views(mounts@);
        let mut items: Vec<PlaceItemData> = Vec::new();
        push_item(&mut items, header(words.computer.as_str()));
        let disks = self.disks(mounts);
        let ghost ds = disk_views(disks@);
        let mut home_is_disk: bool = false;
        let mut i: usize = 0;
        let mut disk_items: Vec<PlaceItemData> = Vec::new();
        while i < disks.len()
            invariant
                i <= disks@.len(),
                ds == disk_views(disks@),
                disk_items@.len() == i,
                forall|k: int| 0 <= k < i ==> (#[trigger] disk_items@[k])@ == disk_entry(ds[k]),
                home_is_disk == (dirs.home matches Some(h) && exists|k: int|
                    0 <= k < i && components((#[trigger] ds[k]).path) == components(h@)),
            decreases disks@.len() - i,
        {
            assert(ds[i as int] == disks@[i as int]@);
            if let Some(h) = &dirs.home {
                if disks[i].path.same(h) {
                    home_is_disk = true;
                }
            }
            disk_items.push(disk_item(&disks[i]));
            i += 1;
        }
        append_items(&mut items, disk_items);
        assert(item_views(items@) =~= computer_section(*self, *words, ms));
        push_item(&mut items, header(words.places.as_str()));
        if let Some(h) = &dirs.home {
            if !home_is_disk {
                push_item(&mut items, item("Home", "folder-home", h, false));
            }
        }
        assert(item_views(items@) =~= computer_section(*self, *words, ms) + seq![
            header_item(words.places@),
        ] + home_section(dirs.home, ds));
        append_items(&mut items, xdg_dirs(dirs, there));
        let ghost so_far = item_views(items@);
        if let Some(p) = trash {
            let mut t = item(words.trash.as_str(), "trash", p, false);
            t.is_trash = true;
            push_item(&mut items, t);
        }
        assert(item_views(items@) =~= so_far + trash_section(*trash, words.trash@));
        append_items(&mut items, self.device_items(words));
        append_items(&mut items, self.bookmark_items(words));
        items
    }

    /// The mount points whose space is to be measured.
    pub fn disk_usage_candidates(&self, mounts: &Vec<UnixPath>) -> (r: Vec<UnixPath>)
        ensures
            path_views(r@) == path_views(mounts@) + mount_points_upto(
                self.devices@,
                self.devices@.len() as int,
            ),
    {
        let mut r = crate::undo::copy_paths(mounts);
        let mut i: usize = 0;
        assert(path_views(r@) =~= path_views(mounts@) + mount_points_upto(self.devices@, 0));
        while i < self.devices.len()
            invariant
                i <= self.devices@.len(),
                path_views(r@) == path_views(mounts@) + mount_points_upto(
                    self.devices@,
                    i as int,
                ),
            decreases self.devices@.len() - i,
        {
            let ghost before = r@;
            if let Some(m) = &self.devices[i].mount_point {
                r.push(m.clone());
                assert(path_views(r@) =~= path_views(before).push(m@));
            }
            assert(path_views(r@) =~= path_views(mounts@) + mount_points_upto(
                self.devices@,
                i + 1,
            ));
            i += 1;
        }
        r
    }
}

/// The mount points of the first `n` devices.
pub open spec fn mount_points_upto(ds: Seq<DeviceInfo>, n: int) -> Seq<Seq<u8>>
    decreases n,
{
    if n <= 0 {
        Seq::empty()
    } else {
        match ds[n - 1].mount_point {
            Some(m) => mount_points_upto(ds, n - 1).push(m@),
            None => mount_points_upto(ds, n - 1),
        }
    }
}

// ---------------------------------------------------------------------------
// Bookmarks in the menus
// ---------------------------------------------------------------------------

/// Which paths the sidebar leads to, as text.
#[derive(Debug)]
pub struct PlacesIndex {
    pub bookmarks: Vec<String>,
    /// The paths that need no bookmark.
    pub reserved: Vec<String>,
}

/// The paths of the first `n` items that need no bookmark.
pub open spec fn reserved_upto(items: Seq<ItemView>, n: int) -> Seq<Seq<char>>
    decreases n,
{
    if n <= 0 {
        Seq::empty()
    } else {
        let it = items[n - 1];
        if !it.is_section_header && !it.is_bookmark && it.path.len() > 0 {
            reserved_upto(items, n - 1).push(it.path)
        } else {
            reserved_upto(items, n - 1)
        }
    }
}

/// Which paths the sidebar leads to.
pub fn index_places(items: &Vec<PlaceItemData>, bookmarks: &BookmarkStore) -> (r: PlacesIndex)
    ensures
        views(r.reserved@) == reserved_upto(item_views(items@), items@.len() as int),
        views(r.bookmarks@) == bookmarks@.map_values(|b: (Seq<char>, Seq<char>)| b.1),
{
    let ghost its = item_views(items@);
    let mut reserved: Vec<String> = Vec::new();
    let mut i: usize = 0;
    assert(views(reserved@) =~= reserved_upto(its, 0));
    while i < items.len()
        invariant
            i <= items@.len(),
            its == item_views(items@),
            views(reserved@) == reserved_upto(its, i as int),
        decreases items@.len() - i,
    {
        let it = &items[i];
        assert(its[i as int] == it@);
        if !it.is_section_header && !it.is_bookmark && !it.path.as_str().is_empty() {
            let ghost before = reserved@;
            reserved.push(it.path.clone());
            assert(views(reserved@) =~= views(before).push(it.path@));
        }
        i += 1;
    }
    let mut marks: Vec<String> = Vec::new();
    let mut k: usize = 0;
    while k < bookmarks.entries.len()
        invariant
            k <= bookmarks.entries@.len(),
            marks@.len() == k,
            forall|m: int| 0 <= m < k ==> (#[trigger] marks@[m])@ == bookmarks@[m].1,
        decreases bookmarks.entries@.len() - k,
    {
        marks.push(bookmarks.entries[k].path.clone());
        k += 1;
    }
    assert(views(marks@) =~= bookmarks@.map_values(|b: (Seq<char>, Seq<char>)| b.1));
    PlacesIndex { bookmarks: marks, reserved }
}

/// Whether a path is bookmarked, and whether it can be. Without a path it is
/// neither.
pub fn bookmark_state_of(index: &PlacesIndex, path: &Option<String>) -> (r: (bool, bool))
    ensures
        r == match *path {
            Some(p) => (
                views(index.bookmarks@).contains(p@),
                !views(index.reserved@).contains(p@),
            ),
            None => (false, false),
        },
{
    match path {
        Some(p) => (
            contains_text(&index.bookmarks, p.as_str()),
            !contains_text(&index.reserved, p.as_str()),
        ),
        None => (false, false),
    }
}

/// The only selected row, if it is a folder.
pub fn selected_folder(state: &AppState) -> (r: Option<usize>)
    ensures
        match r {
            Some(i) => i < state.entries@.len() && state.selected@ == Set::empty().insert(i)
                && state.entries@[i as int].file_type == FileType::Directory,
            None => forall|i: usize|
                i < state.entries@.len() && #[trigger] state.selected@.contains(i)
                    && state.entries@[i as int].file_type == FileType::Directory
                    ==> state.selected@.len() != 1,
        },
{
    if state.selected.len() != 1 {
        return None;
    }
    proof {
        vstd::seq_lib::seq_to_set_is_finite(state.selected.iter().remaining().unref());
    }
    let mut i: usize = 0;
    while i < state.entries.len()
        invariant
            i <= state.entries@.len(),
            state.selected@.len() == 1,
            state.selected@.finite(),
            forall|k: int|
                0 <= k < i ==> !(state.selected@.contains(k as usize) && (
                #[trigger] state.entries@[k]).file_type == FileType::Directory),
        decreases state.entries@.len() - i,
    {
        if state.selected.contains(&i) && state.entries[i].is_dir() {
            proof {
                assert forall|k: usize| state.selected@.contains(k) implies k == i by {
                    if k != i {
                        let t = Set::empty().insert(k).insert(i);
                        assert(t.subset_of(state.selected@));
                        vstd::set_lib::lemma_len_subset(t, state.selected@);
                        assert(t.len() == 2);
                    }
                }
                assert(state.selected@ =~= Set::empty().insert(i));
            }
            return Some(i);
        }
        i += 1;
    }
    assert forall|k: usize|
        k < state.entries@.len() && #[trigger] state.selected@.contains(k)
            && state.entries@[k as int].file_type == FileType::Directory implies state.selected@.len()
        != 1 by {
        assert(state.entries@[k as int].file_type == FileType::Directory);
    }
    None
}

/// The path of the selected folder as the menus look it up.
pub fn selection_bookmark_path(state: &AppState) -> (r: Option<String>)
    ensures
        r is Some ==> exists|i: usize|
            i < state.entries@.len() && state.selected@ == Set::empty().insert(i)
                && #[trigger] state.entries@[i as int].file_type == FileType::Directory && r->0@
                == lossy(state.entries@[i as int].path@),
        r is None ==> forall|i: usize|
            i < state.entries@.len() && #[trigger] state.selected@.contains(i)
                && state.entries@[i as int].file_type == FileType::Directory
                ==> state.selected@.len() != 1,
{
    match selected_folder(state) {
        Some(i) => {
            assert(state.entries@[i as int].file_type == FileType::Directory);
            Some(state.entries[i].path.display())
        },
        None => None,
    }
}

/// The path of the current folder as the menus look it up.
pub fn current_bookmark_path(state: &AppState) -> (r: Option<String>)
    ensures
        opt_view(r) == match crate::state::opt_place(state.current) {
            Some(Place::Local(b)) => Some(lossy(b)),
            _ => None,
        },
{
    match &state.current {
        Some(Location::Local(p)) => Some(p.display()),
        _ => None,
    }
}

/// The name under which the current folder is bookmarked.
pub fn bookmark_name(path: &UnixPath) -> (r: String)
    ensures
        r@ == match file_name(path@) {
            Some(n) => lossy(n),
            None => lossy(path@),
        },
{
    match path.file_name() {
        Some(n) => lossy_text(&n),
        None => path.display(),
    }
}

/// What toggling the bookmark of a path makes of the bookmarks: one that is
/// bookmarked is removed, another is added unless it needs none.
pub open spec fn bookmark_toggled(
    marks: Seq<(Seq<char>, Seq<char>)>,
    reserved: Seq<Seq<char>>,
    path: Seq<char>,
    name: Seq<char>,
) -> Seq<(Seq<char>, Seq<char>)> {
    if find_path(marks, path) < marks.len() {
        without_path(marks, path)
    } else if reserved.contains(path) {
        marks
    } else {
        upserted(marks, name, path)
    }
}

/// Toggles the bookmark of a path. Returns whether the bookmarks are to be
/// saved.
pub fn toggle_bookmark(
    store: &mut BookmarkStore,
    index: &PlacesIndex,
    path: &UnixPath,
    name: &str,
) -> (r: bool)
    ensures
        final(store)@ == bookmark_toggled(
            old(store)@,
            views(index.reserved@),
            lossy(path@),
            name@,
        ),
        r == (find_path(old(store)@, lossy(path@)) < old(store)@.len() || !views(
            index.reserved@,
        ).contains(lossy(path@))),
{
    let key = path.display();
    let ghost marks = store@;
    let mut i: usize = 0;
    assert(marks.skip(0) =~= marks);
    let mut already: bool = false;
    while i < store.entries.len() && !already
        invariant
            i <= store.entries@.len(),
            *store == *old(store),
            marks == store@,
            key@ == lossy(path@),
            !already ==> find_path(marks, key@) == i + find_path(marks.skip(i as int), key@),
            already ==> find_path(marks, key@) < marks.len(),
        decreases store.entries@.len() - i + if already { 0int } else { 1int },
    {
        assert(marks.skip(i as int)[0] == crate::bookmarks::mark(store.entries@[i as int]));
        if same_text(store.entries[i].path.as_str(), key.as_str()) {
            already = true;
        } else {
            assert(marks.skip(i as int).skip(1) =~= marks.skip(i + 1));
            i += 1;
        }
    }
    if already {
        store.remove_by_path(key.as_str());
        return true;
    }
    if contains_text(&index.reserved, key.as_str()) {
        return false;
    }
    store.upsert(name, path);
    true
}

/// Toggling twice the bookmark of a path that is not bookmarked changes nothing.
pub proof fn toggling_twice_gives_the_bookmarks_back(
    marks: Seq<(Seq<char>, Seq<char>)>,
    reserved: Seq<Seq<char>>,
    path: Seq<char>,
    name: Seq<char>,
)
    requires
        forall|i: int| 0 <= i < marks.len() ==> (#[trigger] marks[i]).1 != path,
    ensures
        bookmark_toggled(bookmark_toggled(marks, reserved, path, name), reserved, path, name)
            == marks,
{
    crate::bookmarks::lemma_find_path(marks, path);
    if !reserved.contains(path) {
        let added = upserted(marks, name, path);
        assert(added == marks.push((name, path)));
        crate::bookmarks::lemma_find_path(added, path);
        assert(added[marks.len() as int].1 == path);
        crate::bookmarks::remove_undoes_add(marks, name, path);
    }
}

/// What a click on a sidebar item asks for.
#[derive(Debug)]
pub enum PlaceClick {
    /// Mount the device with this name.
    Mount(String),
    /// A media player, which cannot be browsed.
    Player(String),
    /// Show the path.
    Navigate(UnixPath),
}

/// Decides what a click on a sidebar item asks for.
pub fn place_clicked(path: &str) -> (r: PlaceClick)
    ensures
        match without_prefix(path@, "udisks:"@) {
            Some(o) => r matches PlaceClick::Mount(s) && s@ == o,
            None => match without_prefix(path@, "mtp:"@) {
                Some(l) => r matches PlaceClick::Player(s) && s@ == l,
                None => r matches PlaceClick::Navigate(p) && p@ == encode_utf8(path@),
            },
        },
{
    let v = chars_of(path);
    if let Some(o) = strip_prefix(&v, "udisks:") {
        return PlaceClick::Mount(string_of(o));
    }
    if let Some(l) = strip_prefix(&v, "mtp:") {
        return PlaceClick::Player(string_of(l));
    }
    PlaceClick::Navigate(UnixPath::new(path))
}

} // verus!
