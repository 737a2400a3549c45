//! Files, their attributes and the places they are shown in.
use crate::calendar::FileTime;
use crate::text::{copy_opt, opt_view};
use crate::unix_path::{lossy, parent, UnixPath};
use vstd::prelude::*;
use vstd::string::*;

verus! {

/// What a directory entry is, links followed where they lead somewhere.
#[derive(Debug, Clone, Copy, PartialEq, Eq, Structural)]
pub enum FileType {
    Regular,
    Directory,
    Symlink,
    Special,
}

/// The mode of a file and what its owner may do.
#[derive(Debug, Clone, Copy, PartialEq, Eq, Structural)]
pub struct Permissions {
    pub mode: u32,
    pub readable: bool,
    pub writable: bool,
    pub executable: bool,
}

impl Default for Permissions {
    fn default() -> (r: Self)
        ensures
            r == (Permissions { mode: 0, readable: false, writable: false, executable: false }),
    {
        Permissions { mode: 0, readable: false, writable: false, executable: false }
    }
}

/// A place that a pane can show.
#[derive(Debug)]
pub enum Location {
    Local(UnixPath),
    Trash,
}

/// A place in mathematical terms.
pub enum Place {
    Local(Seq<u8>),
    Trash,
}

impl View for Location {
    type V = Place;

    open spec fn view(&self) -> Place {
        match self {
            Location::Local(p) => Place::Local(p@),
            Location::Trash => Place::Trash,
        }
    }
}

/// How a place is written.
pub open spec fn place_text(p: Place) -> Seq<char> {
    match p {
        Place::Local(b) => lossy(b),
        Place::Trash => "trash:///"@,
    }
}

/// The place above a place.
pub open spec fn place_parent(p: Place) -> Option<Place> {
    match p {
        Place::Local(b) => match parent(b) {
            Some(q) => Some(Place::Local(q)),
            None => None,
        },
        Place::Trash => None,
    }
}

impl Clone for Location {
    fn clone(&self) -> (r: Self)
        ensures
            r@ == self@,
    {
        match self {
            Location::Local(p) => Location::Local(p.clone()),
            Location::Trash => Location::Trash,
        }
    }
}

impl Location {
    /// The path of a local place.
    pub fn as_path(&self) -> (r: Option<&UnixPath>)
        ensures
            match *self {
                Location::Local(p) => r == Some(&p),
                Location::Trash => r is None,
            },
    {
        match self {
            Location::Local(p) => Some(p),
            Location::Trash => None,
        }
    }

    /// The place as text.
    pub fn display(&self) -> (r: String)
        ensures
            r@ == place_text(self@),
    {
        match self {
            Location::Local(p) => p.display(),
            Location::Trash => "trash:///".to_owned(),
        }
    }

    /// The place above; nothing above the root and the trash.
    pub fn parent(&self) -> (r: Option<Location>)
        ensures
            match r {
                Some(l) => place_parent(self@) == Some(l@),
                None => place_parent(self@) is None,
            },
    {
        match self {
            Location::Local(p) => {
                match p.parent() {
                    Some(q) => Some(Location::Local(q)),
                    None => None,
                }
            },
            Location::Trash => None,
        }
    }
}

/// A file as a pane lists it.
#[derive(Debug)]
pub struct FileEntry {
    pub path: UnixPath,
    pub display_name: String,
    pub file_type: FileType,
    pub mime: Option<String>,
    pub size: u64,
    pub mtime: FileTime,
    pub permissions: Permissions,
    pub is_hidden: bool,
    pub is_symlink: bool,
}

/// A file in mathematical terms.
pub struct EntryView {
    pub path: Seq<u8>,
    pub display_name: Seq<char>,
    pub file_type: FileType,
    pub mime: Option<Seq<char>>,
    pub size: u64,
    pub mtime: FileTime,
    pub permissions: Permissions,
    pub is_hidden: bool,
    pub is_symlink: bool,
}

impl View for FileEntry {
    type V = EntryView;

    open spec fn view(&self) -> EntryView {
        EntryView {
            path: self.path@,
            display_name: self.display_name@,
            file_type: self.file_type,
            mime: opt_view(self.mime),
            size: self.size,
            mtime: self.mtime,
            permissions: self.permissions,
            is_hidden: self.is_hidden,
            is_symlink: self.is_symlink,
        }
    }
}

impl Clone for FileEntry {
    fn clone(&self) -> (r: Self)
        ensures
            r@ == self@,
    {
        FileEntry {
            path: self.path.clone(),
            display_name: self.display_name.clone(),
            file_type: self.file_type,
            mime: copy_opt(&self.mime),
            size: self.size,
            mtime: self.mtime,
            permissions: self.permissions,
            is_hidden: self.is_hidden,
            is_symlink: self.is_symlink,
        }
    }
}

/// The views of a list of files.
pub open spec fn entry_views(v: Seq<FileEntry>) -> Seq<EntryView> {
    v.map_values(|e: FileEntry| e@)
}

impl FileEntry {
    /// The name under which the file is shown.
    pub fn name(&self) -> (r: &str)
        ensures
            r@ == self.display_name@,
    {
        self.display_name.as_str()
    }

    /// Whether the file is a directory.
    pub fn is_dir(&self) -> (r: bool)
        ensures
            r == (self.file_type == FileType::Directory),
    {
        self.file_type == FileType::Directory
    }
}

} // verus!
