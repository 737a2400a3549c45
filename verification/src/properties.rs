//! What the properties dialog shows of one entry or of several.
use crate::calendar::{human_mtime, mtime_text, FileTime};
use crate::clipboard::current_dir;
use crate::file_actions::chosen;
use crate::file_ops::{count_unset, first_set, totals_of, DeepCountStats};
use crate::format_util::{human_size, size_text};
use crate::listing::selected_entries;
use crate::num_text::{decimal, decimal_text, digit, digit_char};
use crate::state::AppState;
use crate::text::{opt_view, string_of};
use crate::types::{entry_views, EntryView, FileEntry, FileType, Permissions, Place};
use crate::unix_path::{file_name, lossy, lossy_text, parent, UnixPath};
use vstd::prelude::*;
use vstd::string::*;

verus! {

/// What the properties dialog shows.
#[derive(Debug)]
pub struct PropertiesData {
    pub name: String,
    pub path: String,
    pub kind: String,
    pub is_dir: bool,
    pub size_text: String,
    pub file_count_text: String,
    pub modified: String,
    pub accessed: String,
    pub created: String,
    pub owner: String,
    pub group: String,
    pub mode_octal: String,
    pub deep_scan_active: bool,
    pub can_edit_perms: bool,
    pub perms: PermBits,
    pub media_kind: String,
}

/// The nine permission bits: read, write and execute for the owner, the group
/// and everybody else.
#[derive(Clone, Copy, Debug, PartialEq, Eq, Structural)]
pub struct PermBits {
    pub or: bool,
    pub ow: bool,
    pub ox: bool,
    pub gr: bool,
    pub gw: bool,
    pub gx: bool,
    pub tr: bool,
    pub tw: bool,
    pub tx: bool,
}

/// The permission bits of a mode.
pub open spec fn bits_of(m: u32) -> PermBits {
    PermBits {
        or: m as int / 256 % 2 == 1,
        ow: m as int / 128 % 2 == 1,
        ox: m as int / 64 % 2 == 1,
        gr: m as int / 32 % 2 == 1,
        gw: m as int / 16 % 2 == 1,
        gx: m as int / 8 % 2 == 1,
        tr: m as int / 4 % 2 == 1,
        tw: m as int / 2 % 2 == 1,
        tx: m as int % 2 == 1,
    }
}

/// The permission bits of a mode.
pub fn perm_bits(m: u32) -> (r: PermBits)
    ensures
        r == bits_of(m),
{
    PermBits {
        or: m / 256 % 2 == 1,
        ow: m / 128 % 2 == 1,
        ox: m / 64 % 2 == 1,
        gr: m / 32 % 2 == 1,
        gw: m / 16 % 2 == 1,
        gx: m / 8 % 2 == 1,
        tr: m / 4 % 2 == 1,
        tw: m / 2 % 2 == 1,
        tx: m % 2 == 1,
    }
}

/// The low twelve bits of a mode as four octal digits.
pub open spec fn octal(m: u32) -> Seq<char> {
    seq![
        digit(m as int / 512 % 8),
        digit(m as int / 64 % 8),
        digit(m as int / 8 % 8),
        digit(m as int % 8),
    ]
}

/// The low twelve bits of a mode as four octal digits.
pub fn mode_octal(m: u32) -> (r: String)
    ensures
        r@ == octal(m),
{
    let d: [char; 4] = [
        digit_char((m / 512 % 8) as u8),
        digit_char((m / 64 % 8) as u8),
        digit_char((m / 8 % 8) as u8),
        digit_char((m % 8) as u8),
    ];
    let s = string_of(&d);
    assert(s@ =~= octal(m));
    s
}

/// A size in words and in bytes.
pub open spec fn sized(bytes: nat) -> Seq<char> {
    size_text(bytes) + " ("@ + decimal(bytes) + " bytes)"@
}

/// A size in words and in bytes.
pub fn format_size_text(bytes: u64) -> (r: String)
    ensures
        r@ == sized(bytes as nat),
{
    let mut s = human_size(bytes);
    s.append(" (");
    s.append(decimal_text(bytes).as_str());
    s.append(" bytes)");
    s
}

/// How many files and folders were counted.
pub fn format_count_text(files: u64, folders: u64) -> (r: String)
    ensures
        r@ == decimal(files as nat) + " files in "@ + decimal(folders as nat) + " folders"@,
{
    let mut s = decimal_text(files);
    s.append(" files in ");
    s.append(decimal_text(folders).as_str());
    s.append(" folders");
    s
}

/// What is read of an entry for the dialog.
#[derive(Debug)]
pub struct ExtStat {
    pub atime: FileTime,
    pub ctime: FileTime,
    pub owner: String,
    pub group: String,
    pub mode: u32,
}

/// What is shown where an entry cannot be read.
pub fn unreadable_stat() -> (r: ExtStat)
    ensures
        r.atime == (FileTime { secs: 0, nanos: 0 }),
        r.ctime == (FileTime { secs: 0, nanos: 0 }),
        r.owner@ == Seq::<char>::empty(),
        r.group@ == Seq::<char>::empty(),
        r.mode == 0,
{
    ExtStat {
        atime: FileTime::epoch(),
        ctime: FileTime::epoch(),
        owner: String::new(),
        group: String::new(),
        mode: 0,
    }
}

/// What the dialog shows of one entry, before a directory is counted.
pub fn snapshot_for(entry: &FileEntry, stat: ExtStat, computing: &str) -> (r: PropertiesData)
    ensures
        ({
            let dir = entry.file_type == FileType::Directory;
            &&& r.name@ == entry.display_name@
            &&& r.path@ == lossy(entry.path@)
            &&& r.kind@ == if dir {
                "Folder"@
            } else {
                match opt_view(entry.mime) {
                    Some(m) => m,
                    None => "File"@,
                }
            }
            &&& r.is_dir == dir
            &&& r.size_text@ == if dir {
                computing@
            } else {
                sized(entry.size as nat)
            }
            &&& r.file_count_text@ == if dir {
                computing@
            } else {
                Seq::<char>::empty()
            }
            &&& r.modified@ == mtime_text(entry.mtime)
            &&& r.accessed@ == mtime_text(stat.atime)
            &&& r.created@ == mtime_text(stat.ctime)
            &&& r.owner == stat.owner
            &&& r.group == stat.group
            &&& r.mode_octal@ == octal(stat.mode)
            &&& r.deep_scan_active == dir
            &&& r.can_edit_perms
            &&& r.perms == bits_of(stat.mode)
            &&& r.media_kind@ == Seq::<char>::empty()
        }),
{
    let dir: bool = entry.is_dir();
    let kind: String = if dir {
        "Folder".to_owned()
    } else {
        match &entry.mime {
            Some(m) => m.clone(),
            None => "File".to_owned(),
        }
    };
    let size: String = if dir {
        computing.to_owned()
    } else {
        format_size_text(entry.size)
    };
    let count: String = if dir {
        computing.to_owned()
    } else {
        String::new()
    };
    PropertiesData {
        name: entry.display_name.clone(),
        path: entry.path.display(),
        kind,
        is_dir: dir,
        size_text: size,
        file_count_text: count,
        modified: human_mtime(entry.mtime),
        accessed: human_mtime(stat.atime),
        created: human_mtime(stat.ctime),
        owner: stat.owner,
        group: stat.group,
        mode_octal: mode_octal(stat.mode),
        deep_scan_active: dir,
        can_edit_perms: true,
        perms: perm_bits(stat.mode),
        media_kind: String::new(),
    }
}

/// How many of the first `n` entries are folders.
pub open spec fn folders_upto(es: Seq<EntryView>, n: int) -> nat
    decreases n,
{
    if n <= 0 {
        0
    } else {
        folders_upto(es, n - 1) + if es[n - 1].file_type == FileType::Directory {
            1nat
        } else {
            0
        }
    }
}

/// What the dialog shows of several entries, before they are counted.
pub fn snapshot_for_many(entries: &Vec<FileEntry>, computing: &str) -> (r: PropertiesData)
    ensures
        ({
            let es = entry_views(entries@);
            let dirs = folders_upto(es, es.len() as int);
            &&& r.name@ == decimal(es.len()) + " items"@
            &&& r.path@ == if es.len() > 0 && parent(es[0].path) is Some {
                lossy(parent(es[0].path)->0)
            } else {
                Seq::<char>::empty()
            }
            &&& r.kind@ == decimal(dirs) + " folders, "@ + decimal((es.len() - dirs) as nat)
                + " files"@
            &&& !r.is_dir
            &&& r.size_text@ == computing@
            &&& r.file_count_text@ == computing@
            &&& r.modified@ == "—"@
            &&& r.accessed@ == "—"@
            &&& r.created@ == "—"@
            &&& r.owner@ == "—"@
            &&& r.group@ == "—"@
            &&& r.mode_octal@ == "—"@
            &&& r.deep_scan_active
            &&& !r.can_edit_perms
            &&& r.perms == bits_of(0)
            &&& r.media_kind@ == Seq::<char>::empty()
        }),
{
    let ghost es = entry_views(entries@);
    let count: usize = entries.len();
    let mut dirs: usize = 0;
    let mut i: usize = 0;
    while i < count
        invariant
            i <= count,
            count == entries@.len(),
            es == entry_views(entries@),
            dirs <= i,
            dirs == folders_upto(es, i as int),
        decreases count - i,
    {
        assert(es[i as int] == entries@[i as int]@);
        if entries[i].is_dir() {
            dirs += 1;
        }
        i += 1;
    }
    let mut path = String::new();
    if count > 0 {
        assert(es[0] == entries@[0]@);
        match entries[0].path.parent() {
            Some(p) => {
                path = p.display();
            },
            None => {},
        }
    }
    let mut name = decimal_text(count as u64);
    name.append(" items");
    let mut kind = decimal_text(dirs as u64);
    kind.append(" folders, ");
    kind.append(decimal_text((count - dirs) as u64).as_str());
    kind.append(" files");
    PropertiesData {
        name,
        path,
        kind,
        is_dir: false,
        size_text: computing.to_owned(),
        file_count_text: computing.to_owned(),
        modified: "—".to_owned(),
        accessed: "—".to_owned(),
        created: "—".to_owned(),
        owner: "—".to_owned(),
        group: "—".to_owned(),
        mode_octal: "—".to_owned(),
        deep_scan_active: true,
        can_edit_perms: false,
        perms: perm_bits(0),
        media_kind: String::new(),
    }
}

impl PropertiesData {
    /// Shows the mode that an entry has after its permissions were changed.
    pub fn refresh_perms(&mut self, mode: u32)
        ensures
            final(self).mode_octal@ == octal(mode),
            final(self).perms == bits_of(mode),
            *final(self) == (PropertiesData {
                mode_octal: final(self).mode_octal,
                perms: final(self).perms,
                ..*old(self)
            }),
    {
        self.mode_octal = mode_octal(mode);
        self.perms = perm_bits(mode);
    }

    /// Shows what was counted so far; with `done`, the count is complete. Once
    /// the properties are closed, which cancels the count, nothing is shown.
    pub fn counted(&mut self, stats: DeepCountStats, done: bool, open: bool)
        ensures
            !open ==> *final(self) == *old(self),
            open ==> final(self).size_text@ == sized(stats.bytes as nat),
            open ==> final(self).file_count_text@ == decimal(stats.files as nat) + " files in "@
                + decimal(stats.folders as nat) + " folders"@,
            open ==> final(self).deep_scan_active == (old(self).deep_scan_active && !done),
            *final(self) == (PropertiesData {
                size_text: final(self).size_text,
                file_count_text: final(self).file_count_text,
                deep_scan_active: final(self).deep_scan_active,
                ..*old(self)
            }),
    {
        if !open {
            return;
        }
        self.size_text = format_size_text(stats.bytes);
        self.file_count_text = format_count_text(stats.files, stats.folders);
        if done {
            self.deep_scan_active = false;
        }
    }
}

/// What was found at a path whose size is added up.
#[derive(Debug)]
pub enum TopLevel {
    /// A directory, with what was counted below it.
    Directory(DeepCountStats),
    /// Anything else, with its size.
    Other(u64),
    /// Nothing could be read.
    Unreadable,
}

/// The files, folders and bytes that something found adds: a directory counts
/// as a folder itself.
pub open spec fn added(t: TopLevel) -> (int, int, int) {
    match t {
        TopLevel::Directory(s) => (s.files as int, s.folders + 1, s.bytes as int),
        TopLevel::Other(n) => (1, 0, n as int),
        TopLevel::Unreadable => (0, 0, 0),
    }
}

/// The sum of what the first `n` paths add.
pub open spec fn added_upto(v: Seq<TopLevel>, n: int) -> (int, int, int)
    decreases n,
{
    if n <= 0 {
        (0, 0, 0)
    } else {
        let a = added_upto(v, n - 1);
        let b = added(v[n - 1]);
        (a.0 + b.0, a.1 + b.1, a.2 + b.2)
    }
}

/// Adds what was found at one more path. The same sum, with what is counted of
/// a directory so far, is shown meanwhile.
pub fn count_one_more(totals: DeepCountStats, t: &TopLevel) -> (r: DeepCountStats)
    requires
        totals.files + added(*t).0 <= u64::MAX,
        totals.folders + added(*t).1 <= u64::MAX,
        totals.bytes + added(*t).2 <= u64::MAX,
    ensures
        r.files == totals.files + added(*t).0,
        r.folders == totals.folders + added(*t).1,
        r.bytes == totals.bytes + added(*t).2,
{
    match t {
        TopLevel::Directory(s) => DeepCountStats {
            files: totals.files + s.files,
            folders: totals.folders + (s.folders + 1),
            bytes: totals.bytes + s.bytes,
        },
        TopLevel::Other(n) => DeepCountStats {
            files: totals.files + 1,
            folders: totals.folders,
            bytes: totals.bytes + *n,
        },
        TopLevel::Unreadable => DeepCountStats {
            files: totals.files,
            folders: totals.folders,
            bytes: totals.bytes,
        },
    }
}

proof fn lemma_added_grows(v: Seq<TopLevel>, n: int, m: int)
    requires
        0 <= n <= m <= v.len(),
    ensures
        0 <= added_upto(v, n).0 <= added_upto(v, m).0,
        0 <= added_upto(v, n).1 <= added_upto(v, m).1,
        0 <= added_upto(v, n).2 <= added_upto(v, m).2,
    decreases m,
{
    if m > 0 {
        if n < m {
            lemma_added_grows(v, n, m - 1);
        } else {
            lemma_added_grows(v, n - 1, n - 1);
        }
    }
}

/// Adds up the files, folders and bytes of several paths. For each path,
/// `cancelled` says whether the count was cancelled before it was looked at:
/// neither that path nor one after it adds anything then.
pub fn aggregate_count(found: &Vec<TopLevel>, cancelled: &Vec<bool>) -> (r: DeepCountStats)
    requires
        cancelled@.len() == found@.len(),
        added_upto(found@, found@.len() as int).0 <= u64::MAX,
        added_upto(found@, found@.len() as int).1 <= u64::MAX,
        added_upto(found@, found@.len() as int).2 <= u64::MAX,
    ensures
        totals_of(r) == added_upto(found@, first_set(cancelled@)),
{
    let end: usize = count_unset(cancelled);
    let mut totals = DeepCountStats { files: 0, folders: 0, bytes: 0 };
    let mut i: usize = 0;
    while i < end
        invariant
            i <= end <= found@.len(),
            added_upto(found@, found@.len() as int).0 <= u64::MAX,
            added_upto(found@, found@.len() as int).1 <= u64::MAX,
            added_upto(found@, found@.len() as int).2 <= u64::MAX,
            totals_of(totals) == added_upto(found@, i as int),
        decreases end - i,
    {
        proof {
            lemma_added_grows(found@, i + 1, found@.len() as int);
        }
        totals = count_one_more(totals, &found[i]);
        i += 1;
    }
    totals
}

/// What a request for properties leads to.
#[derive(Debug)]
pub enum PropertiesRequest {
    Nothing,
    One(FileEntry),
    Many(Vec<FileEntry>),
}

/// What a request for the properties of the selection leads to.
pub fn request_properties(state: &AppState) -> (r: PropertiesRequest)
    ensures
        ({
            let es = chosen(*state);
            if es.len() == 0 {
                r is Nothing
            } else if es.len() == 1 {
                r matches PropertiesRequest::One(e) && e@ == es[0]
            } else {
                r matches PropertiesRequest::Many(v) && entry_views(v@) == es
            }
        }),
{
    let entries = selected_entries(&state.entries, &state.selected);
    if entries.len() == 0 {
        PropertiesRequest::Nothing
    } else if entries.len() == 1 {
        assert(entry_views(entries@)[0] == entries@[0]@);
        PropertiesRequest::One(entries[0].clone())
    } else {
        PropertiesRequest::Many(entries)
    }
}

/// The current directory as an entry, for its own properties.
pub fn folder_entry(state: &AppState, mtime: Option<FileTime>) -> (r: Option<FileEntry>)
    ensures
        match state@.active.live.current {
            Some(Place::Local(cur)) => r matches Some(e) && e@ == (EntryView {
                path: cur,
                display_name: match file_name(cur) {
                    Some(n) => lossy(n),
                    None => lossy(cur),
                },
                file_type: FileType::Directory,
                mime: Some("inode/directory"@),
                size: 0,
                mtime: match mtime {
                    Some(t) => t,
                    None => FileTime { secs: 0, nanos: 0 },
                },
                permissions: Permissions {
                    mode: 0,
                    readable: false,
                    writable: false,
                    executable: false,
                },
                is_hidden: false,
                is_symlink: false,
            }),
            _ => r is None,
        },
{
    match current_dir(state) {
        Some(cur) => {
            let name: String = match cur.file_name() {
                Some(n) => lossy_text(&n),
                None => cur.display(),
            };
            let mtime: FileTime = match mtime {
                Some(t) => t,
                None => FileTime::epoch(),
            };
            Some(
                FileEntry {
                    path: cur,
                    display_name: name,
                    file_type: FileType::Directory,
                    mime: Some("inode/directory".to_owned()),
                    size: 0,
                    mtime,
                    permissions: Permissions {
                        mode: 0,
                        readable: false,
                        writable: false,
                        executable: false,
                    },
                    is_hidden: false,
                    is_symlink: false,
                },
            )
        },
        None => None,
    }
}

/// The mode to give to the shown entry: several entries have no common mode,
/// and a negative number is none.
pub fn permissions_to_apply(shown: &Option<UnixPath>, mode: i32) -> (r: Option<u32>)
    ensures
        r == if *shown is None || mode < 0 {
            None
        } else {
            Some(mode as u32)
        },
{
    match shown {
        Some(_) => if mode < 0 {
            None
        } else {
            Some(mode as u32)
        },
        None => None,
    }
}

/// The text of the dialog after the permissions could not be changed.
pub fn permissions_error(path: &UnixPath, err: &str) -> (r: String)
    ensures
        r@ == lossy(path@) + "\n\n"@ + err@,
{
    let mut s = path.display();
    s.append("\n\n");
    s.append(err);
    s
}

} // verus!
