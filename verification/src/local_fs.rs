//! What the listing of a local directory makes of each entry.
use crate::calendar::FileTime;
use crate::mime::{mime_from_header, mime_from_path, path_mime, sniffed_mime};
use crate::text::opt_view;
use crate::types::{EntryView, FileEntry, FileType, Permissions};
use crate::unix_path::{lossy, lossy_text, UnixPath};
use vstd::prelude::*;
use vstd::string::*;

verus! {

/// What the file system says of a path.
#[derive(Clone, Copy, Debug, PartialEq, Eq, Structural)]
pub struct Stat {
    pub is_dir: bool,
    pub is_file: bool,
    pub is_symlink: bool,
    pub len: u64,
    /// When the contents last changed, where that is known.
    pub modified: Option<FileTime>,
    pub mode: u32,
}

/// The type of an entry: what its link leads to, or the link itself.
pub open spec fn type_of(found: Stat, is_symlink: bool) -> FileType {
    if found.is_dir {
        FileType::Directory
    } else if found.is_file {
        FileType::Regular
    } else if is_symlink {
        FileType::Symlink
    } else {
        FileType::Special
    }
}

/// The mode with what it lets the owner do.
pub open spec fn owner_permissions(mode: u32) -> Permissions {
    Permissions {
        mode,
        readable: mode / 256 % 2 == 1,
        writable: mode / 128 % 2 == 1,
        executable: mode / 64 % 2 == 1,
    }
}

/// The MIME type of an entry: directories have their own, then the name
/// decides, then the first bytes of a regular file.
pub open spec fn entry_mime(p: Seq<u8>, ft: FileType, header: Option<Seq<u8>>) -> Option<Seq<char>> {
    if ft == FileType::Directory {
        Some("inode/directory"@)
    } else if path_mime(p) is Some {
        path_mime(p)
    } else if ft == FileType::Regular {
        match header {
            Some(b) => sniffed_mime(b),
            None => None,
        }
    } else {
        None
    }
}

/// The view of bytes that may be missing.
pub open spec fn opt_bytes(b: Option<Vec<u8>>) -> Option<Seq<u8>> {
    match b {
        Some(v) => Some(v@),
        None => None,
    }
}

/// What is listed of a path: what it leads to, else what is at the path itself.
pub open spec fn found_at(followed: Option<Stat>, own: Option<Stat>) -> Option<Stat> {
    if followed is Some {
        followed
    } else {
        own
    }
}

/// Whether there is a link at a path.
pub open spec fn is_link(own: Option<Stat>) -> bool {
    own matches Some(s) && s.is_symlink
}

fn file_type_of(found: &Stat, is_symlink: bool) -> (r: FileType)
    ensures
        r == type_of(*found, is_symlink),
{
    if found.is_dir {
        FileType::Directory
    } else if found.is_file {
        FileType::Regular
    } else if is_symlink {
        FileType::Symlink
    } else {
        FileType::Special
    }
}

/// Whether the first bytes of a file are needed to tell its type. `followed` is
/// what the path leads to and `own` what is at the path itself.
pub fn needs_header(path: &UnixPath, followed: Option<Stat>, own: Option<Stat>) -> (r: bool)
    ensures
        r == (found_at(followed, own) matches Some(s) && type_of(s, is_link(own))
            == FileType::Regular && path_mime(path@) is None),
{
    let found: Stat = match (followed, own) {
        (Some(s), _) => s,
        (None, Some(s)) => s,
        (None, None) => {
            return false;
        },
    };
    let is_symlink: bool = match own {
        Some(s) => s.is_symlink,
        None => false,
    };
    if file_type_of(&found, is_symlink) == FileType::Regular {
        mime_from_path(path).is_none()
    } else {
        false
    }
}

/// The MIME type of an entry. `header` is the start of the file where it could
/// be read.
pub fn mime_for(path: &UnixPath, ft: FileType, header: &Option<Vec<u8>>) -> (r: Option<String>)
    ensures
        opt_view(r) == entry_mime(path@, ft, opt_bytes(*header)),
{
    if ft == FileType::Directory {
        return Some("inode/directory".to_owned());
    }
    let guess = mime_from_path(path);
    if guess.is_some() {
        return guess;
    }
    if ft == FileType::Regular {
        if let Some(b) = header {
            return mime_from_header(b);
        }
    }
    None
}

/// The entry that a listing shows, from what the file system says of the path
/// with links followed (or of the link where that fails).
pub open spec fn listed(
    path: Seq<u8>,
    name: Seq<u8>,
    found: Stat,
    is_symlink: bool,
    header: Option<Seq<u8>>,
) -> EntryView {
    let ft = type_of(found, is_symlink);
    EntryView {
        path,
        display_name: lossy(name),
        file_type: ft,
        mime: entry_mime(path, ft, header),
        size: found.len,
        mtime: match found.modified {
            Some(t) => t,
            None => FileTime { secs: 0, nanos: 0 },
        },
        permissions: owner_permissions(found.mode),
        is_hidden: lossy(name).len() > 0 && lossy(name)[0] == '.',
        is_symlink,
    }
}

/// The local file system.
pub struct LocalFs;

impl LocalFs {
    /// Reads the owner's permission bits off a mode.
    pub fn extract_permissions(mode: u32) -> (r: Permissions)
        ensures
            r == owner_permissions(mode),
    {
        let user: u32 = (mode >> 6) & 0o7;
        assert((((mode >> 6) & 0o7) & 0o4 != 0) == (mode / 256 % 2 == 1)) by (bit_vector);
        assert((((mode >> 6) & 0o7) & 0o2 != 0) == (mode / 128 % 2 == 1)) by (bit_vector);
        assert((((mode >> 6) & 0o7) & 0o1 != 0) == (mode / 64 % 2 == 1)) by (bit_vector);
        Permissions {
            mode,
            readable: user & 0o4 != 0,
            writable: user & 0o2 != 0,
            executable: user & 0o1 != 0,
        }
    }

    /// Makes the entry of a listing. `followed` is what the path leads to and
    /// `own` what is at the path itself; with neither, the entry is passed over.
    pub fn entry_from_dirent(
        path: UnixPath,
        name: &[u8],
        followed: Option<Stat>,
        own: Option<Stat>,
        header: &Option<Vec<u8>>,
    ) -> (r: Option<FileEntry>)
        ensures
            match found_at(followed, own) {
                Some(s) => r matches Some(e) && e@ == listed(
                    path@,
                    name@,
                    s,
                    is_link(own),
                    opt_bytes(*header),
                ),
                None => r is None,
            },
    {
        let found: Stat = match (followed, own) {
            (Some(s), _) => s,
            (None, Some(s)) => s,
            (None, None) => {
                return None;
            },
        };
        let is_symlink: bool = match own {
            Some(s) => s.is_symlink,
            None => false,
        };
        let file_type = file_type_of(&found, is_symlink);
        let mime = mime_for(&path, file_type, header);
        let display_name = lossy_text(name);
        let is_hidden: bool = {
            let v = crate::text::chars_of(display_name.as_str());
            v.len() > 0 && v[0] == '.'
        };
        let mtime: FileTime = match found.modified {
            Some(t) => t,
            None => FileTime::epoch(),
        };
        Some(
            FileEntry {
                path,
                display_name,
                file_type,
                mime,
                size: found.len,
                mtime,
                permissions: Self::extract_permissions(found.mode),
                is_hidden,
                is_symlink,
            },
        )
    }
}

} // verus!
