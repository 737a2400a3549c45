//! The trash directory of the user: where it is, what its sidecar files say and
//! which item goes back where.
use crate::text::{chars_of, lines, lines_of, string_of, strip_prefix, without_prefix};
use crate::unix_path::{components, joined, lossy, lossy_text, parent, UnixPath};
use crate::user_dirs::{data_local_dir, opt_path};
use vstd::prelude::*;
use vstd::string::*;
use vstd::utf8::*;

verus! {

/// The trash below the user's data directory.
pub open spec fn trash_below(data: Seq<u8>) -> Seq<u8> {
    joined(data, encode_utf8("Trash"@))
}

/// Where trashed files lie, below the user's data directory.
pub open spec fn trash_files_below(data: Seq<u8>) -> Seq<u8> {
    joined(trash_below(data), encode_utf8("files"@))
}

/// Where the sidecar files lie, below the user's data directory.
pub open spec fn trash_info_below(data: Seq<u8>) -> Seq<u8> {
    joined(trash_below(data), encode_utf8("info"@))
}

/// The trash directory, for what the system says of the user's data directory.
pub fn trash_root_in(data: &Option<UnixPath>) -> (r: Option<UnixPath>)
    ensures
        opt_path(r) == match *data {
            Some(d) => Some(trash_below(d@)),
            None => None,
        },
{
    match data {
        Some(d) => Some(d.join("Trash")),
        None => None,
    }
}

/// The trash directory, if the user has a data directory.
pub fn trash_root() -> (r: Option<UnixPath>)
    ensures
        r matches Some(p) ==> exists|data: Seq<u8>| p@ == #[trigger] trash_below(data),
{
    trash_root_in(&data_local_dir())
}

/// The directory of trashed files, for what the system says of the user's data directory.
pub fn trash_files_in(data: &Option<UnixPath>) -> (r: Option<UnixPath>)
    ensures
        opt_path(r) == match *data {
            Some(d) => Some(trash_files_below(d@)),
            None => None,
        },
{
    match data {
        Some(d) => Some(d.join("Trash").join("files")),
        None => None,
    }
}

/// The directory of trashed files, if the user has a data directory.
pub fn trash_files_dir() -> (r: Option<UnixPath>)
    ensures
        r matches Some(p) ==> exists|data: Seq<u8>| p@ == #[trigger] trash_files_below(data),
{
    trash_files_in(&data_local_dir())
}

/// The directory of sidecar files, for what the system says of the user's data directory.
pub fn trash_info_in(data: &Option<UnixPath>) -> (r: Option<UnixPath>)
    ensures
        opt_path(r) == match *data {
            Some(d) => Some(trash_info_below(d@)),
            None => None,
        },
{
    match data {
        Some(d) => Some(d.join("Trash").join("info")),
        None => None,
    }
}

/// The directory of sidecar files, if the user has a data directory.
pub fn trash_info_dir() -> (r: Option<UnixPath>)
    ensures
        r matches Some(p) ==> exists|data: Seq<u8>| p@ == #[trigger] trash_info_below(data),
{
    trash_info_in(&data_local_dir())
}

/// Whether a path lies in the given directory of trashed files.
pub open spec fn in_trash(p: Seq<u8>, files: Option<Seq<u8>>) -> bool {
    files matches Some(f) && components(f).is_prefix_of(components(p))
}

/// Whether a path lies in the given directory of trashed files.
pub fn is_below_trash(p: &UnixPath, files: &Option<UnixPath>) -> (r: bool)
    ensures
        r == in_trash(p@, opt_path(*files)),
{
    match files {
        Some(f) => p.starts_with(f),
        None => false,
    }
}

/// Whether a path lies in the trash.
pub fn is_in_trash(p: &UnixPath) -> (r: bool)
    ensures
        r ==> exists|data: Seq<u8>|
            in_trash(p@, Some(#[trigger] trash_files_below(data))),
{
    let files = trash_files_dir();
    let r = is_below_trash(p, &files);
    proof {
        if r {
            let data = choose|data: Seq<u8>| files->0@ == #[trigger] trash_files_below(data);
            assert(in_trash(p@, Some(trash_files_below(data))));
        }
    }
    r
}

// ---------------------------------------------------------------------------
// Percent escapes
// ---------------------------------------------------------------------------

/// The value of a hexadecimal digit.
pub open spec fn hex_value(b: u8) -> Option<u8> {
    if 48 <= b <= 57 {
        Some((b - 48) as u8)
    } else if 97 <= b <= 102 {
        Some((b - 87) as u8)
    } else if 65 <= b <= 70 {
        Some((b - 55) as u8)
    } else {
        None
    }
}

/// The value of a hexadecimal digit.
pub fn hex(b: u8) -> (r: Option<u8>)
    ensures
        r == hex_value(b),
        r matches Some(v) ==> v < 16,
{
    if 48 <= b && b <= 57 {
        Some(b - 48)
    } else if 97 <= b && b <= 102 {
        Some(b - 87)
    } else if 65 <= b && b <= 70 {
        Some(b - 55)
    } else {
        None
    }
}

/// Whether `s` begins with a percent sign and two hexadecimal digits.
pub open spec fn has_escape(s: Seq<u8>) -> bool {
    s.len() >= 3 && s[0] == 37 && hex_value(s[1]) is Some && hex_value(s[2]) is Some
}

/// Bytes with each escape replaced by the byte it stands for.
pub open spec fn unescaped(s: Seq<u8>) -> Seq<u8>
    decreases s.len(),
{
    if s.len() == 0 {
        Seq::empty()
    } else if has_escape(s) {
        seq![(hex_value(s[1])->0 * 16 + hex_value(s[2])->0) as u8] + unescaped(s.skip(3))
    } else {
        seq![s[0]] + unescaped(s.skip(1))
    }
}

fn unescape(bytes: &[u8]) -> (r: Vec<u8>)
    ensures
        r@ == unescaped(bytes@),
{
    let n: usize = bytes.len();
    let mut out: Vec<u8> = Vec::new();
    let mut i: usize = 0;
    assert(bytes@.skip(0) =~= bytes@);
    assert(out@ + unescaped(bytes@) =~= unescaped(bytes@));
    while i < n
        invariant
            n == bytes@.len(),
            i <= n,
            out@ + unescaped(bytes@.skip(i as int)) == unescaped(bytes@),
        decreases n - i,
    {
        let ghost rest = bytes@.skip(i as int);
        let ghost before = out@;
        assert(rest[0] == bytes@[i as int]);
        if bytes[i] == 37 && n - i > 2 {
            assert(rest[1] == bytes@[i + 1] && rest[2] == bytes@[i + 2]);
            if let Some(h) = hex(bytes[i + 1]) {
                if let Some(l) = hex(bytes[i + 2]) {
                    let b: u8 = h * 16 + l;
                    out.push(b);
                    assert(rest.skip(3) =~= bytes@.skip(i + 3));
                    assert(out@ + unescaped(rest.skip(3)) =~= before + (seq![b] + unescaped(
                        rest.skip(3),
                    )));
                    i += 3;
                    continue ;
                }
            }
        }
        out.push(bytes[i]);
        assert(rest.skip(1) =~= bytes@.skip(i + 1));
        assert(out@ + unescaped(rest.skip(1)) =~= before + (seq![rest[0]] + unescaped(
            rest.skip(1),
        )));
        i += 1;
    }
    assert(bytes@.skip(i as int) =~= Seq::empty());
    assert(out@ + unescaped(Seq::empty()) =~= out@);
    out
}

/// Replaces the percent escapes of a text; what is not UTF-8 afterwards is
/// replaced.
pub fn url_decode(s: &str) -> (r: String)
    ensures
        r@ == lossy(unescaped(encode_utf8(s@))),
        valid_utf8(unescaped(encode_utf8(s@))) ==> r@ == decode_utf8(
            unescaped(encode_utf8(s@)),
        ),
{
    let out = unescape(s.as_bytes());
    lossy_text(&out)
}

/// Whether `t` writes out the bytes `s`: each of them as itself, or as a percent
/// sign and two hexadecimal digits, and a percent sign never as itself.
pub open spec fn writes_out(t: Seq<u8>, s: Seq<u8>) -> bool
    decreases s.len(),
{
    if s.len() == 0 {
        t.len() == 0
    } else {
        ||| t.len() > 0 && t[0] == s[0] && s[0] != 37 && writes_out(t.skip(1), s.skip(1))
        ||| has_escape(t) && hex_value(t[1])->0 * 16 + hex_value(t[2])->0 == s[0] && writes_out(
            t.skip(3),
            s.skip(1),
        )
    }
}

/// Decoding gives back what was written out, whichever bytes were escaped and
/// in whichever case their digits are.
pub proof fn escapes_read_back(t: Seq<u8>, s: Seq<u8>)
    requires
        writes_out(t, s),
    ensures
        unescaped(t) == s,
    decreases s.len(),
{
    if s.len() == 0 {
        assert(unescaped(t) =~= s);
    } else {
        if t[0] == s[0] && s[0] != 37 && writes_out(t.skip(1), s.skip(1)) {
            escapes_read_back(t.skip(1), s.skip(1));
        } else {
            escapes_read_back(t.skip(3), s.skip(1));
        }
        assert(seq![s[0]] + s.skip(1) =~= s);
    }
}

/// The digit of a value below sixteen.
pub open spec fn hex_digit(v: int) -> u8 {
    if v < 10 {
        (v + 48) as u8
    } else {
        (v + 55) as u8
    }
}

/// Bytes with those escaped that `pick` names.
pub open spec fn percent_escaped(s: Seq<u8>, pick: spec_fn(u8) -> bool) -> Seq<u8>
    decreases s.len(),
{
    if s.len() == 0 {
        Seq::empty()
    } else if pick(s[0]) {
        seq![37u8, hex_digit(s[0] as int / 16), hex_digit(s[0] as int % 16)] + percent_escaped(
            s.skip(1),
            pick,
        )
    } else {
        seq![s[0]] + percent_escaped(s.skip(1), pick)
    }
}

/// Any bytes may be escaped, so long as the percent sign is among them: decoding
/// gives back what there was.
pub proof fn any_bytes_may_be_escaped(s: Seq<u8>, pick: spec_fn(u8) -> bool)
    requires
        pick(37),
    ensures
        writes_out(percent_escaped(s, pick), s),
        unescaped(percent_escaped(s, pick)) == s,
    decreases s.len(),
{
    if s.len() > 0 {
        any_bytes_may_be_escaped(s.skip(1), pick);
        let t = percent_escaped(s, pick);
        let rest = percent_escaped(s.skip(1), pick);
        if pick(s[0]) {
            assert(t.skip(3) =~= rest);
        } else {
            assert(t.skip(1) =~= rest);
        }
    }
    escapes_read_back(percent_escaped(s, pick), s);
}

/// Text without a percent sign is left as it is.
pub proof fn plain_text_is_kept(s: Seq<u8>)
    requires
        !s.contains(37u8),
    ensures
        unescaped(s) == s,
    decreases s.len(),
{
    if s.len() > 0 {
        assert(s.contains(s[0]));
        let t = s.skip(1);
        assert forall|b: u8| t.contains(b) implies s.contains(b) by {
            let k = choose|k: int| 0 <= k < t.len() && t[k] == b;
            assert(s[k + 1] == b);
        }
        plain_text_is_kept(t);
        assert(seq![s[0]] + t =~= s);
    } else {
        assert(unescaped(s) =~= s);
    }
}

// ---------------------------------------------------------------------------
// Sidecar files
// ---------------------------------------------------------------------------

/// The path that the first `Path=` line among `lines` gives, still escaped.
pub open spec fn path_line(lines: Seq<Seq<char>>) -> Option<Seq<char>>
    decreases lines.len(),
{
    if lines.len() == 0 {
        None
    } else {
        match without_prefix(lines[0], "Path="@) {
            Some(rest) => Some(rest),
            None => path_line(lines.skip(1)),
        }
    }
}

/// The original path that the text of a sidecar file gives.
pub open spec fn original_path(text: Seq<char>) -> Option<Seq<u8>> {
    match path_line(lines_of(text)) {
        Some(rest) => Some(encode_utf8(lossy(unescaped(encode_utf8(rest))))),
        None => None,
    }
}

/// The sidecar file of the trashed file `name` in `info_dir`.
pub open spec fn sidecar(info_dir: Seq<u8>, name: Seq<u8>) -> Seq<u8> {
    joined(info_dir, encode_utf8(lossy(name) + ".trashinfo"@))
}

/// The sidecar file of a trashed file; nothing for a path without a name.
pub fn sidecar_path(info_dir: &UnixPath, trashed: &UnixPath) -> (r: Option<UnixPath>)
    ensures
        match crate::unix_path::file_name(trashed@) {
            Some(n) => r matches Some(p) && p@ == sidecar(info_dir@, n),
            None => r is None,
        },
{
    match trashed.file_name() {
        Some(n) => {
            let mut name = lossy_text(&n);
            name.append(".trashinfo");
            Some(info_dir.join(name.as_str()))
        },
        None => None,
    }
}

/// Reads the original path out of the text of a sidecar file.
pub fn original_path_for(text: &str) -> (r: Option<UnixPath>)
    ensures
        opt_path(r) == original_path(text@),
{
    let all = lines(&chars_of(text));
    let ghost ls = lines_of(text@);
    let mut i: usize = 0;
    assert(ls.skip(0) =~= ls);
    while i < all.len()
        invariant
            i <= all@.len(),
            all@.len() == ls.len(),
            ls == lines_of(text@),
            forall|k: int| 0 <= k < all@.len() ==> (#[trigger] all@[k])@ == ls[k],
            path_line(ls) == path_line(ls.skip(i as int)),
        decreases all@.len() - i,
    {
        assert(ls.skip(i as int)[0] == all@[i as int]@);
        assert(ls.skip(i as int).skip(1) =~= ls.skip(i + 1));
        if let Some(rest) = strip_prefix(&all[i], "Path=") {
            let decoded = url_decode(string_of(rest).as_str());
            return Some(UnixPath::new(decoded.as_str()));
        }
        i += 1;
    }
    None
}

// ---------------------------------------------------------------------------
// Restoring
// ---------------------------------------------------------------------------

/// Why a trashed file cannot be restored.
#[derive(Debug)]
pub enum RestoreError {
    ParentGone(UnixPath),
    DestinationExists(UnixPath),
}

impl RestoreError {
    /// The text of the error.
    pub fn message(&self) -> (r: String)
        ensures
            r@ == match *self {
                RestoreError::ParentGone(p) => "original parent gone: "@ + lossy(p@),
                RestoreError::DestinationExists(p) => "destination exists: "@ + lossy(p@),
            },
    {
        let (intro, path): (&str, &UnixPath) = match self {
            RestoreError::ParentGone(p) => ("original parent gone: ", p),
            RestoreError::DestinationExists(p) => ("destination exists: ", p),
        };
        let mut s: String = intro.to_owned();
        s.append(path.display().as_str());
        s
    }
}

/// Decides whether a file can go back to `orig`: its directory must exist and
/// the place must be free.
pub fn restore(orig: &UnixPath, parent_exists: bool, occupied: bool) -> (r: Result<(), RestoreError>)
    ensures
        match parent(orig@) {
            Some(d) => if !parent_exists {
                r matches Err(RestoreError::ParentGone(p)) && p@ == d
            } else if occupied {
                r matches Err(RestoreError::DestinationExists(p)) && p@ == orig@
            } else {
                r is Ok
            },
            None => if occupied {
                r matches Err(RestoreError::DestinationExists(p)) && p@ == orig@
            } else {
                r is Ok
            },
        },
{
    if let Some(d) = orig.parent() {
        if !parent_exists {
            return Err(RestoreError::ParentGone(d));
        }
    }
    if occupied {
        return Err(RestoreError::DestinationExists(orig.clone()));
    }
    Ok(())
}

/// An item of the trash: where it came from and when it was deleted.
#[derive(Debug)]
pub struct TrashItem {
    pub original: UnixPath,
    pub time_deleted: i64,
}

/// Whether item `i` came from `orig`.
pub open spec fn came_from(items: Seq<TrashItem>, i: int, orig: Seq<u8>) -> bool {
    0 <= i < items.len() && components(items[i].original@) == components(orig)
}

/// Which item came from `orig` and was deleted last; the later in the list of
/// several deleted at once.
pub fn restore_by_original(items: &Vec<TrashItem>, orig: &UnixPath) -> (r: Option<usize>)
    ensures
        match r {
            Some(n) => {
                &&& came_from(items@, n as int, orig@)
                &&& forall|i: int| #[trigger] came_from(items@, i, orig@) ==> {
                    ||| items@[i].time_deleted < items@[n as int].time_deleted
                    ||| items@[i].time_deleted == items@[n as int].time_deleted && i <= n
                }
            },
            None => forall|i: int| !#[trigger] came_from(items@, i, orig@),
        },
{
    let mut best: Option<usize> = None;
    let mut i: usize = 0;
    while i < items.len()
        invariant
            i <= items@.len(),
            match best {
                Some(n) => {
                    &&& n < i
                    &&& came_from(items@, n as int, orig@)
                    &&& forall|k: int| k < i && #[trigger] came_from(items@, k, orig@) ==> {
                        ||| items@[k].time_deleted < items@[n as int].time_deleted
                        ||| items@[k].time_deleted == items@[n as int].time_deleted && k <= n
                    }
                },
                None => forall|k: int| k < i ==> !#[trigger] came_from(items@, k, orig@),
            },
        decreases items@.len() - i,
    {
        if items[i].original.same(orig) {
            let newer: bool = match best {
                Some(n) => items[i].time_deleted >= items[n].time_deleted,
                None => true,
            };
            if newer {
                best = Some(i);
            }
        }
        i += 1;
    }
    best
}

/// How many of the items were purged.
pub open spec fn successes(results: Seq<bool>) -> nat
    decreases results.len(),
{
    if results.len() == 0 {
        0
    } else {
        successes(results.drop_last()) + if results.last() {
            1nat
        } else {
            0nat
        }
    }
}

/// How many of the items were purged; the others were passed over.
pub fn empty_trash(results: &Vec<bool>) -> (r: usize)
    ensures
        r == successes(results@),
{
    let mut n: usize = 0;
    let mut i: usize = 0;
    while i < results.len()
        invariant
            i <= results@.len(),
            n <= i,
            n == successes(results@.take(i as int)),
        decreases results@.len() - i,
    {
        assert(results@.take(i + 1).drop_last() =~= results@.take(i as int));
        if results[i] {
            n += 1;
        }
        i += 1;
    }
    assert(results@.take(i as int) =~= results@);
    n
}

} // verus!
