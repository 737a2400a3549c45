//! Removable devices: disks that the system's disk service reports, and media
//! players on the bus.
use crate::num_text::{decimal, decimal_text, hex_u16, hex_u16_text};
use crate::ordering::{inserted, orders, ranked};
use crate::sort_select::text_before;
use crate::text::{chars_of, last_of, rfind_char, same_text, string_of, text_starts_with};
use crate::unix_path::{lossy, strict_text, UnixPath};
use crate::user_dirs::opt_path;
use vstd::prelude::*;
use vstd::string::*;
use vstd::utf8::*;

verus! {

/// A disk as the sidebar shows it.
#[derive(Debug)]
pub struct DeviceInfo {
    pub object_path: String,
    pub label: String,
    pub device_path: String,
    pub mount_point: Option<UnixPath>,
    pub size_bytes: u64,
}

/// A disk in mathematical terms.
pub struct DeviceView {
    pub object_path: Seq<char>,
    pub label: Seq<char>,
    pub device_path: Seq<char>,
    pub mount_point: Option<Seq<u8>>,
    pub size_bytes: u64,
}

impl View for DeviceInfo {
    type V = DeviceView;

    open spec fn view(&self) -> DeviceView {
        DeviceView {
            object_path: self.object_path@,
            label: self.label@,
            device_path: self.device_path@,
            mount_point: opt_path(self.mount_point),
            size_bytes: self.size_bytes,
        }
    }
}

/// The views of a list of disks.
pub open spec fn device_views(v: Seq<DeviceInfo>) -> Seq<DeviceView> {
    v.map_values(|d: DeviceInfo| d@)
}

/// What the disk service says of an object, as far as it says it.
#[derive(Debug)]
pub struct BlockRecord {
    pub object_path: String,
    pub has_filesystem: bool,
    pub has_block: bool,
    /// The device file, with a zero byte at the end.
    pub device: Option<Vec<u8>>,
    pub id_label: Option<String>,
    pub id_uuid: Option<String>,
    pub size: Option<u64>,
    pub hint_system: Option<bool>,
    /// The mount points, each with a zero byte at the end.
    pub mount_points: Option<Vec<Vec<u8>>>,
}

/// Bytes up to the first zero byte.
pub open spec fn before_zero(b: Seq<u8>) -> Seq<u8>
    decreases b.len(),
{
    if b.len() == 0 || b[0] == 0 {
        Seq::empty()
    } else {
        seq![b[0]] + before_zero(b.skip(1))
    }
}

fn trim_zero(b: &[u8]) -> (r: Vec<u8>)
    ensures
        r@ == before_zero(b@),
{
    let mut out: Vec<u8> = Vec::new();
    let mut i: usize = 0;
    assert(b@.skip(0) =~= b@);
    assert(out@ + before_zero(b@) =~= before_zero(b@));
    while i < b.len() && b[i] != 0
        invariant
            i <= b@.len(),
            out@ + before_zero(b@.skip(i as int)) == before_zero(b@),
        decreases b@.len() - i,
    {
        let ghost rest = b@.skip(i as int);
        let ghost before = out@;
        out.push(b[i]);
        proof {
            assert(rest[0] == b@[i as int]);
            assert(rest.skip(1) =~= b@.skip(i + 1));
            assert(out@ + before_zero(rest.skip(1)) =~= before + (seq![rest[0]] + before_zero(
                rest.skip(1),
            )));
        }
        i += 1;
    }
    proof {
        let rest = b@.skip(i as int);
        assert(before_zero(rest) =~= Seq::empty());
        assert(out@ + before_zero(rest) =~= out@);
    }
    out
}

/// The text of an optional property, empty where it is missing.
pub open spec fn or_empty(s: Option<String>) -> Seq<char> {
    match s {
        Some(t) => t@,
        None => Seq::empty(),
    }
}

/// The device file of an object; empty where it is missing or not UTF-8.
pub open spec fn device_text(r: BlockRecord) -> Seq<char> {
    match r.device {
        Some(b) => if valid_utf8(before_zero(b@)) {
            decode_utf8(before_zero(b@))
        } else {
            Seq::empty()
        },
        None => Seq::empty(),
    }
}

/// Where an object is mounted first.
pub open spec fn first_mount(r: BlockRecord) -> Option<Seq<u8>> {
    match r.mount_points {
        Some(v) => if v@.len() > 0 {
            Some(before_zero(v@[0]@))
        } else {
            None
        },
        None => None,
    }
}

/// Where an object is mounted first.
pub fn first_mount_point(r: &BlockRecord) -> (p: Option<UnixPath>)
    ensures
        opt_path(p) == first_mount(*r),
{
    match &r.mount_points {
        Some(v) => {
            if v.len() > 0 {
                Some(UnixPath { bytes: trim_zero(&v[0]) })
            } else {
                None
            }
        },
        None => None,
    }
}

/// Whether a mount point lies where the user's media are mounted.
pub open spec fn user_mount(p: Seq<u8>) -> bool {
    let s = lossy(p);
    "/run/media"@.is_prefix_of(s) || "/media"@.is_prefix_of(s) || "/mnt"@.is_prefix_of(s)
}

/// Whether an object is shown: it has a file system, and it is no part of the
/// system unless it is mounted where the user's media are.
pub open spec fn shown(r: BlockRecord) -> bool {
    &&& r.has_filesystem
    &&& r.has_block
    &&& r.hint_system == Some(true) ==> (first_mount(r) matches Some(p) && user_mount(p))
}

/// The last part of a device file's path.
pub open spec fn last_part(s: Seq<char>) -> Seq<char> {
    s.skip(last_of(s, '/') + 1)
}

/// What an object is called: by its label, else its identifier, else its device
/// file.
pub open spec fn device_label(r: BlockRecord) -> Seq<char> {
    if or_empty(r.id_label).len() > 0 {
        or_empty(r.id_label)
    } else if or_empty(r.id_uuid).len() > 0 {
        or_empty(r.id_uuid)
    } else {
        last_part(device_text(r))
    }
}

/// An object as the sidebar shows it.
pub open spec fn device_of(r: BlockRecord) -> DeviceView {
    DeviceView {
        object_path: r.object_path@,
        label: device_label(r),
        device_path: device_text(r),
        mount_point: first_mount(r),
        size_bytes: match r.size {
            Some(n) => n,
            None => 0,
        },
    }
}

/// The disks among the first `n` objects that are shown.
pub open spec fn devices_upto(rs: Seq<BlockRecord>, n: int) -> Seq<DeviceView>
    decreases n,
{
    if n <= 0 {
        Seq::empty()
    } else if shown(rs[n - 1]) {
        devices_upto(rs, n - 1).push(device_of(rs[n - 1]))
    } else {
        devices_upto(rs, n - 1)
    }
}

/// Orders disks by their device files.
pub open spec fn by_device_path() -> spec_fn(DeviceView, DeviceView) -> bool {
    |a: DeviceView, b: DeviceView| text_before(a.device_path, b.device_path)
}

fn device_path_text(r: &BlockRecord) -> (s: String)
    ensures
        s@ == device_text(*r),
{
    match &r.device {
        Some(b) => {
            let t = trim_zero(b);
            match strict_text(&t) {
                Some(s) => s,
                None => String::new(),
            }
        },
        None => String::new(),
    }
}

fn text_or_empty(s: &Option<String>) -> (r: String)
    ensures
        r@ == or_empty(*s),
{
    match s {
        Some(t) => t.clone(),
        None => String::new(),
    }
}

fn is_shown(r: &BlockRecord) -> (b: bool)
    ensures
        b == shown(*r),
{
    if !r.has_filesystem || !r.has_block {
        return false;
    }
    let system: bool = match r.hint_system {
        Some(h) => h,
        None => false,
    };
    if !system {
        return true;
    }
    match first_mount_point(r) {
        Some(p) => {
            let s = p.display();
            text_starts_with(s.as_str(), "/run/media") || text_starts_with(s.as_str(), "/media")
                || text_starts_with(s.as_str(), "/mnt")
        },
        None => false,
    }
}

fn make_device(r: &BlockRecord) -> (d: DeviceInfo)
    ensures
        d@ == device_of(*r),
{
    let device_path = device_path_text(r);
    let id_label = text_or_empty(&r.id_label);
    let id_uuid = text_or_empty(&r.id_uuid);
    let label: String = if !id_label.as_str().is_empty() {
        id_label
    } else if !id_uuid.as_str().is_empty() {
        id_uuid
    } else {
        let v = chars_of(device_path.as_str());
        let n: usize = v.len();
        let start: usize = match rfind_char(&v, '/') {
            Some(i) => i + 1,
            None => 0,
        };
        assert(v@.subrange(start as int, n as int) =~= v@.skip(start as int));
        string_of(&v[start..n])
    };
    let size_bytes: u64 = match r.size {
        Some(n) => n,
        None => 0,
    };
    DeviceInfo {
        object_path: r.object_path.clone(),
        label,
        device_path,
        mount_point: first_mount_point(r),
        size_bytes,
    }
}

/// Whether a text comes before another by its characters.
pub fn is_text_before(a: &str, b: &str) -> (r: bool)
    ensures
        r == text_before(a@, b@),
{
    let x = chars_of(a);
    let y = chars_of(b);
    let mut i: usize = 0;
    assert(a@.skip(0) =~= a@);
    assert(b@.skip(0) =~= b@);
    while i < x.len() && i < y.len() && x[i] == y[i]
        invariant
            i <= x@.len(),
            i <= y@.len(),
            x@ == a@,
            y@ == b@,
            text_before(a@, b@) == text_before(a@.skip(i as int), b@.skip(i as int)),
        decreases x@.len() - i,
    {
        proof {
            assert(a@.skip(i as int).skip(1) =~= a@.skip(i + 1));
            assert(b@.skip(i as int).skip(1) =~= b@.skip(i + 1));
        }
        i += 1;
    }
    i < y.len() && (i == x.len() || x[i] < y[i])
}

fn insert_device(v: &mut Vec<DeviceInfo>, d: DeviceInfo)
    ensures
        device_views(final(v)@) == inserted(device_views(old(v)@), d@, by_device_path()),
{
    let ghost s = device_views(v@);
    let n: usize = v.len();
    let mut at: usize = n;
    assert(s.take(n as int) =~= s);
    assert(s.skip(n as int) =~= Seq::empty());
    assert(inserted(s, d@, by_device_path()) =~= inserted(s.take(n as int), d@, by_device_path())
        + s.skip(n as int));
    while at > 0 && is_text_before(d.device_path.as_str(), v[at - 1].device_path.as_str())
        invariant
            at <= n,
            n == v@.len(),
            v@ == old(v)@,
            s == device_views(v@),
            inserted(s, d@, by_device_path()) == inserted(
                s.take(at as int),
                d@,
                by_device_path(),
            ) + s.skip(at as int),
        decreases at,
    {
        proof {
            let t = s.take(at as int);
            assert(t.last() == v@[at - 1]@);
            assert(t.drop_last() =~= s.take(at - 1));
            let m = inserted(t.drop_last(), d@, by_device_path());
            assert(m.push(t.last()) + s.skip(at as int) =~= m + s.skip(at - 1));
        }
        at -= 1;
    }
    proof {
        let t = s.take(at as int);
        if at > 0 {
            assert(t.last() == v@[at - 1]@);
        }
        assert(inserted(t, d@, by_device_path()) == t.push(d@));
    }
    v.insert(at, d);
    assert(device_views(v@) =~= s.take(at as int).push(d@) + s.skip(at as int));
}

/// The disks to show, by device file.
pub fn enumerate_devices(records: &Vec<BlockRecord>) -> (r: Vec<DeviceInfo>)
    ensures
        device_views(r@) == ranked(
            devices_upto(records@, records@.len() as int),
            by_device_path(),
        ),
{
    let mut out: Vec<DeviceInfo> = Vec::new();
    let mut i: usize = 0;
    assert(device_views(out@) =~= ranked(devices_upto(records@, 0), by_device_path()));
    while i < records.len()
        invariant
            i <= records@.len(),
            device_views(out@) == ranked(devices_upto(records@, i as int), by_device_path()),
        decreases records@.len() - i,
    {
        if is_shown(&records[i]) {
            let d = make_device(&records[i]);
            proof {
                let before = devices_upto(records@, i as int);
                assert(before.push(d@).drop_last() =~= before);
                assert(before.push(d@).last() == d@);
            }
            insert_device(&mut out, d);
        }
        i += 1;
    }
    out
}

/// The order in which the disk service names its objects does not matter: as
/// long as no two disks have the same device file, the sidebar shows them in
/// the same order.
pub proof fn devices_keep_their_places(a: Seq<DeviceView>, b: Seq<DeviceView>)
    requires
        a.len() == b.len(),
        forall|d: DeviceView| #[trigger] a.contains(d) <==> b.contains(d),
        forall|x: DeviceView, y: DeviceView|
            #[trigger] a.contains(x) && #[trigger] a.contains(y) && x != y ==> x.device_path
                != y.device_path,
        a.no_duplicates(),
        b.no_duplicates(),
    ensures
        ranked(a, by_device_path()) == ranked(b, by_device_path()),
{
    let before = by_device_path();
    lemma_by_device_path();
    assert forall|x: DeviceView, y: DeviceView| #[trigger]
        a.contains(x) && #[trigger] a.contains(y) && x != y implies before(x, y) || before(
        y,
        x,
    ) by {
        crate::sort_select::lemma_text_order(x.device_path, y.device_path, x.device_path);
    }
    crate::ordering::arrival_does_not_matter(a, b, before);
}

pub proof fn lemma_by_device_path()
    ensures
        orders(by_device_path()),
{
    let before = by_device_path();
    assert forall|a: DeviceView, b: DeviceView| #[trigger] before(a, b) implies !before(b, a) by {
        crate::sort_select::lemma_text_order(a.device_path, b.device_path, a.device_path);
    }
    assert forall|a: DeviceView, b: DeviceView, c: DeviceView| #[trigger]
        before(a, b) && #[trigger] before(b, c) implies before(a, c) by {
        crate::sort_select::lemma_text_order(a.device_path, b.device_path, c.device_path);
    }
    assert forall|a: DeviceView, b: DeviceView, c: DeviceView|
        !#[trigger] before(a, b) && !#[trigger] before(b, c) implies !before(a, c) by {
        crate::sort_select::lemma_text_order(a.device_path, b.device_path, c.device_path);
        crate::sort_select::lemma_text_order(c.device_path, b.device_path, a.device_path);
        crate::sort_select::lemma_text_order(a.device_path, c.device_path, b.device_path);
        crate::sort_select::lemma_text_order(b.device_path, a.device_path, c.device_path);
        crate::sort_select::lemma_text_order(b.device_path, c.device_path, a.device_path);
    }
}

// ---------------------------------------------------------------------------
// Noticing changes
// ---------------------------------------------------------------------------

fn same_opt_bytes(a: &Option<UnixPath>, b: &Option<UnixPath>) -> (r: bool)
    ensures
        r == (opt_components(*a) == opt_components(*b)),
{
    match (a, b) {
        (Some(x), Some(y)) => x.same(y),
        (None, None) => true,
        _ => false,
    }
}

/// The components of a path that may be missing.
pub open spec fn opt_components(p: Option<UnixPath>) -> Option<Seq<Seq<u8>>> {
    match p {
        Some(q) => Some(crate::unix_path::components(q@)),
        None => None,
    }
}

/// Whether two disks are equal in all that is known of them.
pub open spec fn same_device(a: DeviceInfo, b: DeviceInfo) -> bool {
    &&& a.object_path@ == b.object_path@
    &&& a.label@ == b.label@
    &&& a.device_path@ == b.device_path@
    &&& opt_components(a.mount_point) == opt_components(b.mount_point)
    &&& a.size_bytes == b.size_bytes
}

fn is_same_device(a: &DeviceInfo, b: &DeviceInfo) -> (r: bool)
    ensures
        r == same_device(*a, *b),
{
    same_text(a.object_path.as_str(), b.object_path.as_str()) && same_text(
        a.label.as_str(),
        b.label.as_str(),
    ) && same_text(a.device_path.as_str(), b.device_path.as_str()) && same_opt_bytes(
        &a.mount_point,
        &b.mount_point,
    ) && a.size_bytes == b.size_bytes
}

/// Whether two lists of disks are equal.
pub open spec fn same_devices(a: Seq<DeviceInfo>, b: Seq<DeviceInfo>) -> bool {
    a.len() == b.len() && forall|i: int| 0 <= i < a.len() ==> same_device(#[trigger] a[i], b[i])
}

/// Takes a new list of disks. Returns whether it differs from the old one.
pub fn update_devices(current: &mut Vec<DeviceInfo>, list: Vec<DeviceInfo>) -> (changed: bool)
    ensures
        changed == !same_devices(old(current)@, list@),
        changed ==> *final(current) == list,
        !changed ==> *final(current) == *old(current),
{
    let mut same: bool = current.len() == list.len();
    if same {
        let mut i: usize = 0;
        while i < list.len()
            invariant
                i <= list@.len(),
                current@.len() == list@.len(),
                current@ == old(current)@,
                *current == *old(current),
                same == forall|k: int| 0 <= k < i ==> same_device(#[trigger] current@[k], list@[k]),
            decreases list@.len() - i,
        {
            if !is_same_device(&current[i], &list[i]) {
                same = false;
            }
            i += 1;
        }
    }
    if !same {
        *current = list;
        true
    } else {
        false
    }
}

// ---------------------------------------------------------------------------
// Media players
// ---------------------------------------------------------------------------

/// A media player on the bus.
#[derive(Debug)]
pub struct MtpDeviceEntry {
    pub serial: String,
    pub label: String,
    pub vendor: String,
    pub model: String,
    pub location_id: u64,
}

/// Describes a media player by what the bus says of it.
pub fn mtp_entry(label: String, vendor_id: u16, product_id: u16, location_id: u64) -> (r:
    MtpDeviceEntry)
    ensures
        r.serial@ == "loc"@ + decimal(location_id as nat),
        r.label == label,
        r.vendor@ == "0x"@ + hex_u16(vendor_id),
        r.model@ == "0x"@ + hex_u16(product_id),
        r.location_id == location_id,
{
    let mut serial: String = "loc".to_owned();
    serial.append(decimal_text(location_id).as_str());
    let mut vendor: String = "0x".to_owned();
    vendor.append(hex_u16_text(vendor_id).as_str());
    let mut model: String = "0x".to_owned();
    model.append(hex_u16_text(product_id).as_str());
    MtpDeviceEntry { serial, label, vendor, model, location_id }
}

/// Whether two media players are equal in all that is known of them.
pub open spec fn same_player(a: MtpDeviceEntry, b: MtpDeviceEntry) -> bool {
    &&& a.serial@ == b.serial@
    &&& a.label@ == b.label@
    &&& a.vendor@ == b.vendor@
    &&& a.model@ == b.model@
    &&& a.location_id == b.location_id
}

/// Whether two lists of media players are equal.
pub open spec fn same_players(a: Seq<MtpDeviceEntry>, b: Seq<MtpDeviceEntry>) -> bool {
    a.len() == b.len() && forall|i: int| 0 <= i < a.len() ==> same_player(#[trigger] a[i], b[i])
}

/// Takes a new list of media players. Returns whether it differs from the old
/// one.
pub fn update_players(current: &mut Vec<MtpDeviceEntry>, list: Vec<MtpDeviceEntry>) -> (changed:
    bool)
    ensures
        changed == !same_players(old(current)@, list@),
        changed ==> *final(current) == list,
        !changed ==> *final(current) == *old(current),
{
    let mut same: bool = current.len() == list.len();
    if same {
        let mut i: usize = 0;
        while i < list.len()
            invariant
                i <= list@.len(),
                current@.len() == list@.len(),
                *current == *old(current),
                same == forall|k: int| 0 <= k < i ==> same_player(#[trigger] current@[k], list@[k]),
            decreases list@.len() - i,
        {
            let a = &current[i];
            let b = &list[i];
            let equal: bool = same_text(a.serial.as_str(), b.serial.as_str()) && same_text(
                a.label.as_str(),
                b.label.as_str(),
            ) && same_text(a.vendor.as_str(), b.vendor.as_str()) && same_text(
                a.model.as_str(),
                b.model.as_str(),
            ) && a.location_id == b.location_id;
            if !equal {
                same = false;
            }
            i += 1;
        }
    }
    if !same {
        *current = list;
        true
    } else {
        false
    }
}

/// The media players on the bus.
#[derive(Debug)]
pub struct MtpController {
    pub devices: Vec<MtpDeviceEntry>,
}

impl MtpController {
    /// Before anything was found.
    pub fn new() -> (r: Self)
        ensures
            r.devices@.len() == 0,
    {
        MtpController { devices: Vec::new() }
    }

    /// Takes what a scan of the bus found; one that failed found nothing. Returns
    /// whether the sidebar is to be drawn anew.
    pub fn updated(&mut self, list: Option<Vec<MtpDeviceEntry>>) -> (changed: bool)
        ensures
            ({
                let found = match list {
                    Some(l) => l@,
                    None => Seq::<MtpDeviceEntry>::empty(),
                };
                &&& changed == !same_players(old(self).devices@, found)
                &&& changed ==> final(self).devices@ == found
                &&& !changed ==> *final(self) == *old(self)
            }),
    {
        let found: Vec<MtpDeviceEntry> = match list {
            Some(l) => l,
            None => Vec::new(),
        };
        update_players(&mut self.devices, found)
    }
}

} // verus!
