//! How paths are made of names, and which files count as what by their names.
use crate::archive::{archive_ext, archive_name, has_ext};
use crate::compress::format_of;
use crate::devices::user_mount;
use crate::listing::{crumb_path, crumbs, error_lines, place_crumbs};
use crate::copy_progress::CopyError;
use crate::places::{blocked_path, user_relevant_fs};
use crate::remote::remote_scheme;
use crate::state::title_of;
use crate::text::occurs_at;
use crate::thumbnails::{audio_ext, extra_video_ext};
use crate::types::{place_text, Place};
use crate::unix_path::{
    components, dot, extension, file_stem, joined, joined_entry, last_byte, lemma_last_byte, lossy,
    name_extension, name_stem, plain_name, slash,
};
use vstd::prelude::*;
use vstd::utf8::*;

verus! {

/// A name with a dot inside is its stem, the last dot and its extension; one
/// without, or with a leading one alone, has no extension.
pub proof fn a_file_name_is_its_stem_and_extension(name: Seq<u8>)
    ensures
        match name_extension(name) {
            Some(e) => name == name_stem(name).push(dot()) + e && name_stem(name).len() > 0
                && !e.contains(dot()),
            None => name_stem(name) == name && forall|k: int|
                0 < k < name.len() ==> #[trigger] name[k] != dot(),
        },
{
    lemma_last_byte(name, dot());
    let i = last_byte(name, dot());
    if i > 0 {
        let e = name.skip(i + 1);
        assert(name =~= name.take(i).push(dot()) + e);
        assert forall|k: int| 0 <= k < e.len() implies e[k] != dot() by {
            assert(e[k] == name[i + 1 + k]);
        }
    }
}

/// The extension and the stem of an entry are those of its name.
pub proof fn entries_have_the_extension_of_their_name(dir: Seq<u8>, name: Seq<u8>)
    requires
        plain_name(name),
    ensures
        extension(joined(dir, name)) == name_extension(name),
        file_stem(joined(dir, name)) == Some(name_stem(name)),
{
    joined_entry(dir, name);
}

/// A path that begins at the root stays as it is, wherever it is looked up from;
/// another one comes behind the folder.
pub proof fn paths_are_looked_up_from_a_folder(dir: Seq<u8>, rel: Seq<u8>)
    ensures
        rel.len() > 0 && rel[0] == slash() ==> joined(dir, rel) == rel,
        rel.len() == 0 || rel[0] != slash() ==> dir.is_prefix_of(joined(dir, rel))
            && rel.is_suffix_of(joined(dir, rel)) && joined(dir, rel).len() <= dir.len() + 1
            + rel.len(),
{
    if rel.len() == 0 || rel[0] != slash() {
        let p = joined(dir, rel);
        assert(dir =~= p.subrange(0, dir.len() as int));
        assert(rel =~= p.subrange(p.len() - rel.len(), p.len() as int));
    }
}

/// Each part of the path bar leads one folder deeper than the one before, and is
/// called by the name of that folder.
pub proof fn each_part_leads_one_folder_deeper(cs: Seq<Seq<u8>>, n: int)
    requires
        1 < n <= cs.len(),
        plain_name(encode_utf8(lossy(cs[n - 1]))),
    ensures
        components(crumb_path(cs, n)) == components(crumb_path(cs, n - 1)).push(
            encode_utf8(lossy(cs[n - 1])),
        ),
        crumbs(cs, n).len() == crumbs(cs, n - 1).len() + 1,
        crumbs(cs, n).drop_last() == crumbs(cs, n - 1),
        crumbs(cs, n).last().0 == lossy(cs[n - 1]),
        crumbs(cs, n).last().1 == lossy(crumb_path(cs, n)),
{
    joined_entry(crumb_path(cs, n - 1), encode_utf8(lossy(cs[n - 1])));
    assert(crumbs(cs, n).drop_last() =~= crumbs(cs, n - 1));
}

/// The path bar has one part for each component of the path, the first of them
/// the root.
pub proof fn the_path_bar_has_a_part_for_each_folder(b: Seq<u8>)
    requires
        components(b).len() > 0,
    ensures
        place_crumbs(Place::Local(b)).len() == components(b).len(),
        place_crumbs(Place::Local(b))[0] == ("/"@, "/"@),
        place_crumbs(Place::Trash).len() == 1,
        place_crumbs(Place::Trash)[0].0 == title_of(Some(Place::Trash)),
        place_crumbs(Place::Trash)[0].1 == place_text(Place::Trash),
        place_text(Place::Trash) == "trash:///"@,
{
    lemma_crumbs(components(b), components(b).len() as int);
}

proof fn lemma_crumbs(cs: Seq<Seq<u8>>, n: int)
    requires
        1 <= n <= cs.len(),
    ensures
        crumbs(cs, n).len() == n,
        crumbs(cs, n)[0] == ("/"@, "/"@),
    decreases n,
{
    if n > 1 {
        lemma_crumbs(cs, n - 1);
    }
}

/// Every failure is listed with its path and its reason, in order.
pub proof fn failures_are_listed_with_path_and_reason(errors: Seq<CopyError>, n: int, i: int)
    requires
        0 <= i < n <= errors.len(),
    ensures
        error_lines(errors, i).is_prefix_of(error_lines(errors, n)),
        occurs_at(
            error_lines(errors, n),
            lossy(errors[i].path@),
            error_lines(errors, i).len() as int,
        ),
        occurs_at(
            error_lines(errors, n),
            errors[i].message@,
            error_lines(errors, i).len() as int + lossy(errors[i].path@).len() + 5,
        ),
    decreases n,
{
    reveal_strlit("\n    ");
    reveal_strlit("\n");
    let before = error_lines(errors, i);
    let all = error_lines(errors, n);
    let p = lossy(errors[i].path@);
    let m = errors[i].message@;
    let a = before.len() as int;
    let b = a + p.len() + 5;
    if i == n - 1 {
        assert(before =~= all.subrange(0, a));
        assert(all.subrange(a, a + p.len()) =~= p);
        assert(all.subrange(b, b + m.len()) =~= m);
    } else {
        failures_are_listed_with_path_and_reason(errors, n - 1, i);
        let most = error_lines(errors, n - 1);
        assert(before =~= most.subrange(0, a));
        assert(before =~= all.subrange(0, a));
        assert(all.subrange(a, a + p.len()) =~= most.subrange(a, a + p.len()));
        assert(all.subrange(b, b + m.len()) =~= most.subrange(b, b + m.len()));
    }
}

// ---------------------------------------------------------------------------
// What names say
// ---------------------------------------------------------------------------

proof fn lemma_ends(stem: Seq<char>, i: int)
    requires
        0 <= i < 17,
    ensures
        archive_name(stem + archive_ext(i)),
{
    let s = stem + archive_ext(i);
    let x = archive_ext(i);
    assert(x =~= s.subrange(s.len() - x.len(), s.len() as int));
    assert(has_ext(s, i));
}

/// Whatever stands before it, a name that ends as an archive is one.
pub proof fn archives_are_known_by_their_end(stem: Seq<char>)
    ensures
        archive_name(stem + ".zip"@),
        archive_name(stem + ".7z"@),
        archive_name(stem + ".rar"@),
        archive_name(stem + ".tar"@),
        archive_name(stem + ".tar.gz"@),
        archive_name(stem + ".tar.bz2"@),
        archive_name(stem + ".tar.xz"@),
        archive_name(stem + ".tar.zst"@),
        archive_name(stem + ".tgz"@),
        archive_name(stem + ".tbz2"@),
        archive_name(stem + ".tbz"@),
        archive_name(stem + ".txz"@),
        archive_name(stem + ".tzst"@),
        archive_name(stem + ".gz"@),
        archive_name(stem + ".bz2"@),
        archive_name(stem + ".xz"@),
        archive_name(stem + ".zst"@),
{
    lemma_ends(stem, 0);
    lemma_ends(stem, 1);
    lemma_ends(stem, 2);
    lemma_ends(stem, 3);
    lemma_ends(stem, 4);
    lemma_ends(stem, 5);
    lemma_ends(stem, 6);
    lemma_ends(stem, 7);
    lemma_ends(stem, 8);
    lemma_ends(stem, 9);
    lemma_ends(stem, 10);
    lemma_ends(stem, 11);
    lemma_ends(stem, 12);
    lemma_ends(stem, 13);
    lemma_ends(stem, 14);
    lemma_ends(stem, 15);
    lemma_ends(stem, 16);
}

proof fn lemma_begins(p: Seq<char>, rest: Seq<char>)
    ensures
        p.is_prefix_of(p + rest),
{
    assert(p =~= (p + rest).subrange(0, p.len() as int));
}

/// Whatever follows, an address with one of the known schemes is that of a
/// server.
pub proof fn servers_are_known_by_their_scheme(rest: Seq<char>)
    ensures
        remote_scheme("ssh://"@ + rest),
        remote_scheme("sftp://"@ + rest),
        remote_scheme("smb://"@ + rest),
        remote_scheme("ftp://"@ + rest),
        remote_scheme("ftps://"@ + rest),
        remote_scheme("dav://"@ + rest),
        remote_scheme("davs://"@ + rest),
        remote_scheme("nfs://"@ + rest),
        remote_scheme(rest) ==> rest.len() > 0 && rest[0] != '/',
{
    lemma_begins("ssh://"@, rest);
    lemma_begins("sftp://"@, rest);
    lemma_begins("smb://"@, rest);
    lemma_begins("ftp://"@, rest);
    lemma_begins("ftps://"@, rest);
    lemma_begins("dav://"@, rest);
    lemma_begins("davs://"@, rest);
    lemma_begins("nfs://"@, rest);
    if remote_scheme(rest) {
        reveal_strlit("ssh://");
        reveal_strlit("sftp://");
        reveal_strlit("smb://");
        reveal_strlit("ftp://");
        reveal_strlit("ftps://");
        reveal_strlit("dav://");
        reveal_strlit("davs://");
        reveal_strlit("nfs://");
        let p = if "ssh://"@.is_prefix_of(rest) {
            "ssh://"@
        } else if "sftp://"@.is_prefix_of(rest) {
            "sftp://"@
        } else if "smb://"@.is_prefix_of(rest) {
            "smb://"@
        } else if "ftp://"@.is_prefix_of(rest) {
            "ftp://"@
        } else if "ftps://"@.is_prefix_of(rest) {
            "ftps://"@
        } else if "dav://"@.is_prefix_of(rest) {
            "dav://"@
        } else if "davs://"@.is_prefix_of(rest) {
            "davs://"@
        } else {
            "nfs://"@
        };
        assert(p =~= rest.subrange(0, p.len() as int));
        assert(rest[0] == p[0]);
    }
}

/// Mounts of the system are kept back, whatever lies below them.
pub proof fn mounts_of_the_system_are_kept_back(rest: Seq<char>)
    ensures
        blocked_path("/proc"@ + rest),
        blocked_path("/sys"@ + rest),
        blocked_path("/dev"@ + rest),
        blocked_path("/run"@ + rest),
        blocked_path("/snap"@ + rest),
        blocked_path("/var/snap"@ + rest),
        blocked_path("/var/lib/docker"@ + rest),
        blocked_path("/var/lib/containers"@ + rest),
        blocked_path("/var/lib/lxc"@ + rest),
        blocked_path("/var/lib/lxd"@ + rest),
        blocked_path("/var/lib/flatpak/exports"@ + rest),
        blocked_path("/boot"@ + rest),
{
    lemma_begins("/proc"@, rest);
    lemma_begins("/sys"@, rest);
    lemma_begins("/dev"@, rest);
    lemma_begins("/run"@, rest);
    lemma_begins("/snap"@, rest);
    lemma_begins("/var/snap"@, rest);
    lemma_begins("/var/lib/docker"@, rest);
    lemma_begins("/var/lib/containers"@, rest);
    lemma_begins("/var/lib/lxc"@, rest);
    lemma_begins("/var/lib/lxd"@, rest);
    lemma_begins("/var/lib/flatpak/exports"@, rest);
    lemma_begins("/boot"@, rest);
}

/// The folders of users, of disks and of media, and the root, are not kept back
/// for how they begin.
pub proof fn folders_of_users_are_not_kept_back(rest: Seq<char>)
    ensures
        !blocked_path("/home"@ + rest),
        !blocked_path("/mnt"@ + rest),
        !blocked_path("/media"@ + rest),
        !blocked_path(seq!['/']),
{
    lemma_not_blocked("/home"@ + rest, rest);
    lemma_not_blocked("/mnt"@ + rest, rest);
    lemma_not_blocked("/media"@ + rest, rest);
    lemma_short_root();
}

proof fn lemma_apart(p: Seq<char>, s: Seq<char>, k: int)
    requires
        0 <= k < p.len(),
        k < s.len() ==> p[k] != s[k],
    ensures
        !p.is_prefix_of(s),
{
    if p.is_prefix_of(s) {
        assert(p =~= s.subrange(0, p.len() as int));
        assert(p[k] == s.subrange(0, p.len() as int)[k]);
    }
}

proof fn lemma_not_blocked(s: Seq<char>, rest: Seq<char>)
    requires
        s == "/home"@ + rest || s == "/mnt"@ + rest || s == "/media"@ + rest,
    ensures
        !blocked_path(s),
{
    reveal_strlit("/home");
    reveal_strlit("/mnt");
    reveal_strlit("/media");
    assert(s[1] == 'h' || s[1] == 'm');
    lemma_second_letter(s);
}

proof fn lemma_short_root()
    ensures
        !blocked_path(seq!['/']),
{
    lemma_second_letter(seq!['/']);
}

proof fn lemma_second_letter(s: Seq<char>)
    requires
        s.len() > 1 ==> s[1] == 'h' || s[1] == 'm',
    ensures
        !blocked_path(s),
{
    reveal_strlit("/proc");
    reveal_strlit("/sys");
    reveal_strlit("/dev");
    reveal_strlit("/run");
    reveal_strlit("/snap");
    reveal_strlit("/var/snap");
    reveal_strlit("/var/lib/docker");
    reveal_strlit("/var/lib/containers");
    reveal_strlit("/var/lib/lxc");
    reveal_strlit("/var/lib/lxd");
    reveal_strlit("/var/lib/flatpak/exports");
    reveal_strlit("/boot");
    lemma_apart("/proc"@, s, 1);
    lemma_apart("/sys"@, s, 1);
    lemma_apart("/dev"@, s, 1);
    lemma_apart("/run"@, s, 1);
    lemma_apart("/snap"@, s, 1);
    lemma_apart("/var/snap"@, s, 1);
    lemma_apart("/var/lib/docker"@, s, 1);
    lemma_apart("/var/lib/containers"@, s, 1);
    lemma_apart("/var/lib/lxc"@, s, 1);
    lemma_apart("/var/lib/lxd"@, s, 1);
    lemma_apart("/var/lib/flatpak/exports"@, s, 1);
    lemma_apart("/boot"@, s, 1);
}

/// The file systems that users have are shown, and no other.
pub proof fn file_systems_of_users_are_shown(t: Seq<char>)
    ensures
        user_relevant_fs(t) <==> seq![
            "ext2"@,
            "ext3"@,
            "ext4"@,
            "btrfs"@,
            "xfs"@,
            "zfs"@,
            "f2fs"@,
            "jfs"@,
            "reiserfs"@,
            "vfat"@,
            "exfat"@,
            "ntfs"@,
            "ntfs3"@,
            "fuseblk"@,
            "hfsplus"@,
            "apfs"@,
        ].contains(t),
{
    let known = seq![
        "ext2"@,
        "ext3"@,
        "ext4"@,
        "btrfs"@,
        "xfs"@,
        "zfs"@,
        "f2fs"@,
        "jfs"@,
        "reiserfs"@,
        "vfat"@,
        "exfat"@,
        "ntfs"@,
        "ntfs3"@,
        "fuseblk"@,
        "hfsplus"@,
        "apfs"@,
    ];
    assert(known[0] == "ext2"@);
    assert(known[1] == "ext3"@);
    assert(known[2] == "ext4"@);
    assert(known[3] == "btrfs"@);
    assert(known[4] == "xfs"@);
    assert(known[5] == "zfs"@);
    assert(known[6] == "f2fs"@);
    assert(known[7] == "jfs"@);
    assert(known[8] == "reiserfs"@);
    assert(known[9] == "vfat"@);
    assert(known[10] == "exfat"@);
    assert(known[11] == "ntfs"@);
    assert(known[12] == "ntfs3"@);
    assert(known[13] == "fuseblk"@);
    assert(known[14] == "hfsplus"@);
    assert(known[15] == "apfs"@);
}

/// Sounds are known by their extension, and some films; none is both.
pub proof fn sounds_and_films_are_known_by_extension(e: Seq<char>)
    ensures
        audio_ext(e) <==> seq![
            "mp3"@,
            "flac"@,
            "m4a"@,
            "m4b"@,
            "mp4a"@,
            "aac"@,
            "ogg"@,
            "opus"@,
            "wav"@,
            "wv"@,
            "ape"@,
            "aiff"@,
            "aif"@,
        ].contains(e),
        extra_video_ext(e) <==> seq![
            "rmvb"@,
            "rm"@,
            "ts"@,
            "mts"@,
            "m2ts"@,
            "vob"@,
            "ogm"@,
            "divx"@,
            "f4v"@,
            "asf"@,
        ].contains(e),
{
    let a = seq![
        "mp3"@,
        "flac"@,
        "m4a"@,
        "m4b"@,
        "mp4a"@,
        "aac"@,
        "ogg"@,
        "opus"@,
        "wav"@,
        "wv"@,
        "ape"@,
        "aiff"@,
        "aif"@,
    ];
    assert(a[0] == "mp3"@);
    assert(a[1] == "flac"@);
    assert(a[2] == "m4a"@);
    assert(a[3] == "m4b"@);
    assert(a[4] == "mp4a"@);
    assert(a[5] == "aac"@);
    assert(a[6] == "ogg"@);
    assert(a[7] == "opus"@);
    assert(a[8] == "wav"@);
    assert(a[9] == "wv"@);
    assert(a[10] == "ape"@);
    assert(a[11] == "aiff"@);
    assert(a[12] == "aif"@);
    let v = seq![
        "rmvb"@,
        "rm"@,
        "ts"@,
        "mts"@,
        "m2ts"@,
        "vob"@,
        "ogm"@,
        "divx"@,
        "f4v"@,
        "asf"@,
    ];
    assert(v[0] == "rmvb"@);
    assert(v[1] == "rm"@);
    assert(v[2] == "ts"@);
    assert(v[3] == "mts"@);
    assert(v[4] == "m2ts"@);
    assert(v[5] == "vob"@);
    assert(v[6] == "ogm"@);
    assert(v[7] == "divx"@);
    assert(v[8] == "f4v"@);
    assert(v[9] == "asf"@);
}

/// A mount for users lies below one of the three folders for such mounts.
pub proof fn mounts_for_users_lie_below_three_folders(p: Seq<u8>)
    requires
        user_mount(p),
    ensures
        exists|rest: Seq<char>|
            lossy(p) == "/run/media"@ + rest || lossy(p) == "/media"@ + rest || lossy(p) == #[trigger] (
            "/mnt"@ + rest),
{
    let s = lossy(p);
    if "/run/media"@.is_prefix_of(s) {
        let q = "/run/media"@;
        let rest = s.skip(q.len() as int);
        assert(q =~= s.subrange(0, q.len() as int));
        assert(s =~= q + rest);
        assert(("/mnt"@ + rest).len() >= 0);
    } else if "/media"@.is_prefix_of(s) {
        let q = "/media"@;
        let rest = s.skip(q.len() as int);
        assert(q =~= s.subrange(0, q.len() as int));
        assert(s =~= q + rest);
        assert(("/mnt"@ + rest).len() >= 0);
    } else {
        let q = "/mnt"@;
        let rest = s.skip(q.len() as int);
        assert(q =~= s.subrange(0, q.len() as int));
        assert(s =~= q + rest);
    }
}

/// Every code of the dialog stands for a format; those that are not known for the
/// usual one.
pub proof fn codes_stand_for_formats(code: i32)
    ensures
        format_of(code) is SevenZip <==> code == 1,
        format_of(code) is TarGz <==> code == 2,
        code < 1 || code > 2 ==> format_of(code) is Zip,
{
}

/// Joining puts exactly one slash between a folder and a name below it, none before
/// a name without a folder, and a path from the root stays as it is.
pub proof fn joining_puts_one_slash_between(base: Seq<u8>, rel: Seq<u8>)
    ensures
        rel.len() > 0 && rel[0] == 47 ==> joined(base, rel) == rel,
        rel.len() == 0 || rel[0] != 47 ==> {
            &&& base.len() == 0 ==> joined(base, rel) == rel
            &&& base.len() > 0 && base.last() == 47 ==> joined(base, rel) == base + rel
            &&& base.len() > 0 && base.last() != 47 ==> joined(base, rel) == base + seq![47u8]
                + rel
        },
{
    assert(Seq::<u8>::empty() + rel =~= rel);
    if base.len() == 0 {
        assert(base + rel =~= rel);
    }
    assert(base.push(47u8) =~= base + seq![47u8]);
}

} // verus!
