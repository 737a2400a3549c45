//! Which icon stands for a file.
use crate::text::{same_text, text_starts_with};
use crate::types::{EntryView, FileEntry, FileType};
use crate::unix_path::{components, UnixPath};
use crate::user_dirs::UserDirs;
use vstd::prelude::*;
use vstd::string::*;

verus! {

/// Whether a MIME type is one of an archive that has an icon of its own.
pub open spec fn archive_icon_mime(m: Seq<char>) -> bool {
    ||| m == "application/zip"@
    ||| m == "application/x-tar"@
    ||| m == "application/gzip"@
    ||| m == "application/x-bzip2"@
    ||| m == "application/x-xz"@
    ||| m == "application/x-7z-compressed"@
    ||| m == "application/vnd.rar"@
    ||| m == "application/x-rar"@
}

/// The icon of a MIME type.
pub open spec fn mime_icon(m: Seq<char>) -> Seq<char> {
    if "image/"@.is_prefix_of(m) {
        "image"@
    } else if "video/"@.is_prefix_of(m) {
        "video"@
    } else if "audio/"@.is_prefix_of(m) {
        "audio"@
    } else if m == "application/pdf"@ {
        "pdf"@
    } else if "text/"@.is_prefix_of(m) {
        "text"@
    } else if archive_icon_mime(m) {
        "archive"@
    } else if m == "application/x-executable"@ || m == "application/x-sharedlib"@ {
        "executable"@
    } else if m == "inode/directory"@ {
        "folder"@
    } else {
        "file-generic"@
    }
}

/// The icon of a MIME type.
pub fn icon_for_mime(mime: &str) -> (r: &'static str)
    ensures
        r@ == mime_icon(mime@),
{
    if text_starts_with(mime, "image/") {
        "image"
    } else if text_starts_with(mime, "video/") {
        "video"
    } else if text_starts_with(mime, "audio/") {
        "audio"
    } else if same_text(mime, "application/pdf") {
        "pdf"
    } else if text_starts_with(mime, "text/") {
        "text"
    } else if same_text(mime, "application/zip") || same_text(mime, "application/x-tar")
        || same_text(mime, "application/gzip") || same_text(mime, "application/x-bzip2")
        || same_text(mime, "application/x-xz") || same_text(mime, "application/x-7z-compressed")
        || same_text(mime, "application/vnd.rar") || same_text(mime, "application/x-rar") {
        "archive"
    } else if same_text(mime, "application/x-executable") || same_text(
        mime,
        "application/x-sharedlib",
    ) {
        "executable"
    } else if same_text(mime, "inode/directory") {
        "folder"
    } else {
        "file-generic"
    }
}

/// Whether `p` is the directory `dir`, if that is set.
pub open spec fn is_dir_path(p: Seq<u8>, dir: Option<UnixPath>) -> bool {
    dir matches Some(d) && components(p) == components(d@)
}

/// The icon of a well-known directory of the user. Without a home directory
/// there is none.
pub open spec fn user_dir_icon(p: Seq<u8>, dirs: UserDirs) -> Option<Seq<char>> {
    if dirs.home is None {
        None
    } else if is_dir_path(p, dirs.home) {
        Some("folder-home"@)
    } else if is_dir_path(p, dirs.desktop) {
        Some("folder-desktop"@)
    } else if is_dir_path(p, dirs.documents) {
        Some("folder-documents"@)
    } else if is_dir_path(p, dirs.downloads) {
        Some("folder-downloads"@)
    } else if is_dir_path(p, dirs.pictures) {
        Some("folder-pictures"@)
    } else if is_dir_path(p, dirs.music) {
        Some("folder-music"@)
    } else if is_dir_path(p, dirs.videos) {
        Some("folder-videos"@)
    } else if is_dir_path(p, dirs.templates) {
        Some("folder-templates"@)
    } else if is_dir_path(p, dirs.public) {
        Some("folder-public"@)
    } else {
        None
    }
}

/// The view of an icon that may be missing.
pub open spec fn opt_icon(r: Option<&'static str>) -> Option<Seq<char>> {
    match r {
        Some(s) => Some(s@),
        None => None,
    }
}

fn is_path(p: &UnixPath, dir: &Option<UnixPath>) -> (r: bool)
    ensures
        r == is_dir_path(p@, *dir),
{
    match dir {
        Some(d) => p.same(d),
        None => false,
    }
}

/// The icon of a directory among the given ones of the user.
pub fn icon_for_xdg_user_dir(path: &UnixPath, dirs: &UserDirs) -> (r: Option<&'static str>)
    ensures
        opt_icon(r) == user_dir_icon(path@, *dirs),
{
    if dirs.home.is_none() {
        None
    } else if is_path(path, &dirs.home) {
        Some("folder-home")
    } else if is_path(path, &dirs.desktop) {
        Some("folder-desktop")
    } else if is_path(path, &dirs.documents) {
        Some("folder-documents")
    } else if is_path(path, &dirs.downloads) {
        Some("folder-downloads")
    } else if is_path(path, &dirs.pictures) {
        Some("folder-pictures")
    } else if is_path(path, &dirs.music) {
        Some("folder-music")
    } else if is_path(path, &dirs.videos) {
        Some("folder-videos")
    } else if is_path(path, &dirs.templates) {
        Some("folder-templates")
    } else if is_path(path, &dirs.public) {
        Some("folder-public")
    } else {
        None
    }
}

/// The icon of a file: well-known directories first, then directories, then
/// the MIME type.
pub open spec fn entry_icon(e: EntryView, dirs: UserDirs) -> Seq<char> {
    if e.file_type == FileType::Directory {
        match user_dir_icon(e.path, dirs) {
            Some(name) => name,
            None => "folder"@,
        }
    } else {
        match e.mime {
            Some(m) => mime_icon(m),
            None => "file-generic"@,
        }
    }
}

/// The icon of a file, given the user's directories.
pub fn icon_for_entry(entry: &FileEntry, dirs: &UserDirs) -> (r: &'static str)
    ensures
        r@ == entry_icon(entry@, *dirs),
{
    if entry.is_dir() {
        match icon_for_xdg_user_dir(&entry.path, dirs) {
            Some(name) => name,
            None => "folder",
        }
    } else {
        match &entry.mime {
            Some(m) => icon_for_mime(m.as_str()),
            None => "file-generic",
        }
    }
}

} // verus!
