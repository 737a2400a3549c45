//! Rules of the basic file operations: which names are valid, which name a new
//! entry gets beside existing ones, how modes are combined and what a recursive
//! count adds up.
use crate::num_text::{decimal, decimal_chars};
use crate::text::{chars_of, find_char, last_of, rfind_char, same_text, string_of};
use crate::unix_path::{components, joined, lossy, parent, slash, UnixPath};
use vstd::prelude::*;
use vstd::string::*;
use vstd::utf8::*;

verus! {

/// Running totals of a recursive count.
#[derive(Clone, Copy, Debug, PartialEq, Eq, Structural)]
pub struct DeepCountStats {
    pub files: u64,
    pub folders: u64,
    pub bytes: u64,
}

impl Default for DeepCountStats {
    fn default() -> (r: Self)
        ensures
            r == (DeepCountStats { files: 0, folders: 0, bytes: 0 }),
    {
        DeepCountStats { files: 0, folders: 0, bytes: 0 }
    }
}

/// Why a file operation failed. The last three carry the text of the failure
/// below.
#[derive(Debug)]
pub enum FileOpError {
    DestExists(UnixPath),
    InvalidName(String),
    SourceGone(UnixPath),
    Io(String),
    Trash(String),
    Walk(String),
}

/// The text of an error.
pub open spec fn error_text(e: FileOpError) -> Seq<char> {
    match e {
        FileOpError::DestExists(p) => "path exists at destination: "@ + lossy(p@),
        FileOpError::InvalidName(n) => "invalid name (contains '/' or empty): "@ + n@,
        FileOpError::SourceGone(p) => "source path is gone: "@ + lossy(p@),
        FileOpError::Io(m) => "io: "@ + m@,
        FileOpError::Trash(m) => "trash: "@ + m@,
        FileOpError::Walk(m) => "walkdir: "@ + m@,
    }
}

impl FileOpError {
    /// The text of the error.
    pub fn message(&self) -> (r: String)
        ensures
            r@ == error_text(*self),
    {
        let (intro, detail): (&str, String) = match self {
            FileOpError::DestExists(p) => ("path exists at destination: ", p.display()),
            FileOpError::InvalidName(n) => ("invalid name (contains '/' or empty): ", n.clone()),
            FileOpError::SourceGone(p) => ("source path is gone: ", p.display()),
            FileOpError::Io(m) => ("io: ", m.clone()),
            FileOpError::Trash(m) => ("trash: ", m.clone()),
            FileOpError::Walk(m) => ("walkdir: ", m.clone()),
        };
        let mut r: String = intro.to_owned();
        r.append(detail.as_str());
        r
    }
}

// ---------------------------------------------------------------------------
// Names
// ---------------------------------------------------------------------------

/// Whether a text can name a new entry of a directory.
pub open spec fn valid_name(name: Seq<char>) -> bool {
    name.len() > 0 && name != "."@ && name != ".."@ && !name.contains('/')
}

/// Refuses the empty name, `.`, `..` and names with a slash.
pub fn validate_name(name: &str) -> (r: Result<(), FileOpError>)
    ensures
        r is Ok == valid_name(name@),
        r matches Err(e) ==> e matches FileOpError::InvalidName(n) && n@ == name@,
{
    let v = chars_of(name);
    let slashed: bool = match find_char(&v, '/') {
        Some(i) => true,
        None => false,
    };
    if name.is_empty() || same_text(name, ".") || same_text(name, "..") || slashed {
        return Err(FileOpError::InvalidName(name.to_owned()));
    }
    Ok(())
}

/// A name cut at its last dot; the dot that starts a hidden name does not
/// count.
pub open spec fn name_parts(name: Seq<char>) -> (Seq<char>, Seq<char>) {
    let i = last_of(name, '.');
    if i > 0 {
        (name.take(i), name.skip(i + 1))
    } else {
        (name, Seq::empty())
    }
}

/// Cuts a name into stem and extension.
pub fn split_name(name: &str) -> (r: (String, String))
    ensures
        (r.0@, r.1@) == name_parts(name@),
{
    let v = chars_of(name);
    let n: usize = v.len();
    if let Some(i) = rfind_char(&v, '.') {
        if i > 0 {
            assert(v@.subrange(0, i as int) =~= v@.take(i as int));
            assert(v@.subrange(i + 1, n as int) =~= v@.skip(i + 1));
            return (string_of(&v[0..i]), string_of(&v[i + 1..n]));
        }
    }
    (name.to_owned(), String::new())
}

/// The `n`-th name to try for an entry: the name itself, then `stem (1).ext`,
/// `stem (2).ext` and so on.
pub open spec fn candidate_name(name: Seq<char>, n: nat) -> Seq<char> {
    let (stem, ext) = name_parts(name);
    if n == 0 {
        name
    } else if ext.len() == 0 {
        stem + " ("@ + decimal(n) + ")"@
    } else {
        stem + " ("@ + decimal(n) + ")."@ + ext
    }
}

/// The `n`-th name to try for an entry.
pub fn nth_candidate_name(name: &str, n: u32) -> (r: String)
    ensures
        r@ == candidate_name(name@, n as nat),
{
    if n == 0 {
        return name.to_owned();
    }
    let (mut s, ext) = split_name(name);
    s.append(" (");
    s.append(string_of(&decimal_chars(n as u64)).as_str());
    if ext.as_str().is_empty() {
        s.append(")");
    } else {
        s.append(").");
        s.append(ext.as_str());
    }
    s
}

/// How many names are tried before giving up.
pub const MAX_CANDIDATES: u32 = 1_000_000;

/// The path of the `n`-th name to try in `dir`.
pub open spec fn candidate_path(dir: Seq<u8>, name: Seq<char>, n: nat) -> Seq<u8> {
    joined(dir, encode_utf8(candidate_name(name, n)))
}

/// The path of the `n`-th name to try in `dir`.
pub fn nth_candidate_path(dir: &UnixPath, name: &str, n: u32) -> (r: UnixPath)
    ensures
        r@ == candidate_path(dir@, name@, n as nat),
{
    dir.join(nth_candidate_name(name, n).as_str())
}

/// Whether `occupied` answered `b` for the path `p`.
pub open spec fn answered<F: Fn(&UnixPath) -> bool>(occupied: F, p: Seq<u8>, b: bool) -> bool {
    exists|q: UnixPath| q@ == p && #[trigger] call_ensures(occupied, (&q,), b)
}

/// Whether the first `n` candidates were all found occupied.
pub open spec fn all_taken<F: Fn(&UnixPath) -> bool>(
    occupied: F,
    dir: Seq<u8>,
    name: Seq<char>,
    n: nat,
) -> bool {
    forall|k: nat| k < n ==> answered(occupied, #[trigger] candidate_path(dir, name, k), true)
}

/// Whether `p` is the first candidate that was found free.
pub open spec fn first_free<F: Fn(&UnixPath) -> bool>(
    occupied: F,
    dir: Seq<u8>,
    name: Seq<char>,
    n: nat,
    p: Seq<u8>,
) -> bool {
    &&& n < MAX_CANDIDATES
    &&& p == candidate_path(dir, name, n)
    &&& answered(occupied, p, false)
    &&& all_taken(occupied, dir, name, n)
}

/// What a search for a free name returns: the first candidate found free, or
/// the plain name where none is.
pub open spec fn is_unique_destination<F: Fn(&UnixPath) -> bool>(
    occupied: F,
    dir: Seq<u8>,
    name: Seq<char>,
    p: Seq<u8>,
) -> bool {
    ||| exists|n: nat| first_free(occupied, dir, name, n, p)
    ||| p == candidate_path(dir, name, 0) && all_taken(
        occupied,
        dir,
        name,
        MAX_CANDIDATES as nat,
    )
}

/// A destination in `dest_dir` for `src_name` at which `occupied` finds nothing:
/// `name.ext`, `name (1).ext`, `name (2).ext`, ...
pub fn unique_destination<F: Fn(&UnixPath) -> bool>(
    dest_dir: &UnixPath,
    src_name: &str,
    occupied: F,
) -> (r: UnixPath)
    requires
        forall|q: UnixPath| call_requires(occupied, (&q,)),
    ensures
        is_unique_destination(occupied, dest_dir@, src_name@, r@),
{
    let mut n: u32 = 0;
    while n < MAX_CANDIDATES
        invariant
            n <= MAX_CANDIDATES,
            forall|q: UnixPath| call_requires(occupied, (&q,)),
            all_taken(occupied, dest_dir@, src_name@, n as nat),
        decreases MAX_CANDIDATES - n,
    {
        let p = nth_candidate_path(dest_dir, src_name, n);
        if !occupied(&p) {
            assert(answered(occupied, p@, false));
            assert(first_free(occupied, dest_dir@, src_name@, n as nat, p@));
            return p;
        }
        assert(answered(occupied, p@, true));
        n += 1;
    }
    nth_candidate_path(dest_dir, src_name, 0)
}

// ---------------------------------------------------------------------------
// Renaming and creating
// ---------------------------------------------------------------------------

/// What is left to do for a rename.
#[derive(Debug)]
pub enum RenameStep {
    /// The entry has that name already.
    Unchanged(UnixPath),
    /// The entry is to be renamed to this path.
    Rename(UnixPath),
}

/// The path that renaming `src` leads to.
pub open spec fn rename_target(src: Seq<u8>, new_name: Seq<char>) -> Seq<u8> {
    joined(parent(src)->0, encode_utf8(new_name))
}

/// Decides a rename inside the same directory. `occupied` is asked only where
/// the target is another path than the source.
pub fn rename_in_place<F: Fn(&UnixPath) -> bool>(
    src: &UnixPath,
    new_name: &str,
    occupied: F,
) -> (r: Result<RenameStep, FileOpError>)
    requires
        forall|q: UnixPath| call_requires(occupied, (&q,)),
    ensures
        !valid_name(new_name@) <==> r matches Err(FileOpError::InvalidName(_)),
        r matches Err(FileOpError::InvalidName(n)) ==> n@ == new_name@,
        valid_name(new_name@) && parent(src@) is None <==> r matches Err(FileOpError::SourceGone(_)),
        r matches Err(FileOpError::SourceGone(p)) ==> p@ == src@,
        valid_name(new_name@) && parent(src@) is Some ==> {
            let dest = rename_target(src@, new_name@);
            if components(dest) == components(src@) {
                r matches Ok(RenameStep::Unchanged(d)) && d@ == dest
            } else {
                ||| r matches Ok(RenameStep::Rename(d)) && d@ == dest && answered(
                    occupied,
                    dest,
                    false,
                )
                ||| r matches Err(FileOpError::DestExists(d)) && d@ == dest && answered(
                    occupied,
                    dest,
                    true,
                )
            }
        },
{
    if let Err(e) = validate_name(new_name) {
        return Err(e);
    }
    let dir = match src.parent() {
        Some(p) => p,
        None => {
            return Err(FileOpError::SourceGone(src.clone()));
        },
    };
    let dest = dir.join(new_name);
    if dest.same(src) {
        return Ok(RenameStep::Unchanged(dest));
    }
    if occupied(&dest) {
        assert(answered(occupied, dest@, true));
        return Err(FileOpError::DestExists(dest));
    }
    assert(answered(occupied, dest@, false));
    Ok(RenameStep::Rename(dest))
}

/// The path at which a new directory is to be made.
pub fn create_directory<F: Fn(&UnixPath) -> bool>(
    dir: &UnixPath,
    name: &str,
    occupied: F,
) -> (r: Result<UnixPath, FileOpError>)
    requires
        forall|q: UnixPath| call_requires(occupied, (&q,)),
    ensures
        r is Ok == valid_name(name@),
        r matches Ok(p) ==> is_unique_destination(occupied, dir@, name@, p@),
        r matches Err(e) ==> e matches FileOpError::InvalidName(n) && n@ == name@,
{
    if let Err(e) = validate_name(name) {
        return Err(e);
    }
    Ok(unique_destination(dir, name, occupied))
}

// ---------------------------------------------------------------------------
// Deleting
// ---------------------------------------------------------------------------

/// What was found at a path that is to be deleted.
#[derive(Debug)]
pub enum Found {
    /// A directory, not a link to one.
    Directory,
    /// Anything else.
    Other,
    /// Nothing.
    Gone,
    /// The path could not be examined.
    Failed(String),
}

/// How a path is to be deleted.
#[derive(Clone, Copy, Debug, PartialEq, Eq, Structural)]
pub enum DeleteStep {
    /// Nothing is there any more: go on with the next path.
    Nothing,
    RemoveTree,
    RemoveFile,
}

/// Decides how a path is to be deleted.
pub fn delete_step(found: Found) -> (r: Result<DeleteStep, FileOpError>)
    ensures
        match found {
            Found::Directory => r == Ok::<DeleteStep, FileOpError>(DeleteStep::RemoveTree),
            Found::Other => r == Ok::<DeleteStep, FileOpError>(DeleteStep::RemoveFile),
            Found::Gone => r == Ok::<DeleteStep, FileOpError>(DeleteStep::Nothing),
            Found::Failed(m) => r == Err::<DeleteStep, FileOpError>(FileOpError::Io(m)),
        },
{
    match found {
        Found::Directory => Ok(DeleteStep::RemoveTree),
        Found::Other => Ok(DeleteStep::RemoveFile),
        Found::Gone => Ok(DeleteStep::Nothing),
        Found::Failed(m) => Err(FileOpError::Io(m)),
    }
}

/// How many of the steps deleted something.
pub open spec fn deleted(steps: Seq<DeleteStep>) -> nat
    decreases steps.len(),
{
    if steps.len() == 0 {
        0
    } else {
        deleted(steps.drop_last()) + if steps.last() == DeleteStep::Nothing {
            0nat
        } else {
            1nat
        }
    }
}

/// How many of the steps deleted something.
pub fn count_deleted(steps: &Vec<DeleteStep>) -> (r: usize)
    ensures
        r == deleted(steps@),
{
    let mut n: usize = 0;
    let mut i: usize = 0;
    while i < steps.len()
        invariant
            i <= steps@.len(),
            n == deleted(steps@.take(i as int)),
            n <= i,
        decreases steps@.len() - i,
    {
        assert(steps@.take(i + 1).drop_last() =~= steps@.take(i as int));
        if steps[i] != DeleteStep::Nothing {
            n += 1;
        }
        i += 1;
    }
    assert(steps@.take(i as int) =~= steps@);
    n
}

// ---------------------------------------------------------------------------
// Modes
// ---------------------------------------------------------------------------

/// The mode of a file after its permission bits are set to `mode`: the low
/// twelve bits come from `mode`, the others stay.
pub fn with_permission_bits(old_mode: u32, mode: u32) -> (r: u32)
    ensures
        r == (old_mode & !0o7777u32) | (mode & 0o7777u32),
        r % 4096 == mode % 4096,
        r / 4096 == old_mode / 4096,
{
    assert((((old_mode & !0o7777u32) | (mode & 0o7777u32)) & 0xfffu32) == (mode & 0xfffu32))
        by (bit_vector);
    assert((((old_mode & !0o7777u32) | (mode & 0o7777u32)) >> 12u32) == (old_mode >> 12u32))
        by (bit_vector);
    let r: u32 = (old_mode & !0o7777u32) | (mode & 0o7777u32);
    assert(r & 0xfffu32 == r % 4096) by (bit_vector);
    assert(mode & 0xfffu32 == mode % 4096) by (bit_vector);
    assert(r >> 12u32 == r / 4096) by (bit_vector);
    assert(old_mode >> 12u32 == old_mode / 4096) by (bit_vector);
    r
}

// ---------------------------------------------------------------------------
// Recursive counts
// ---------------------------------------------------------------------------

/// Whether a recursive count leaves out the child `name` of `dir`: the
/// pseudo-filesystems right below the root.
pub open spec fn prunes(dir: Seq<u8>, name: Seq<u8>) -> bool {
    components(dir) == components(encode_utf8("/"@)) && (name == encode_utf8("proc"@) || name
        == encode_utf8("sys"@))
}

/// Whether a recursive count leaves out the child `name` of `dir`.
pub fn prune_child(dir: &UnixPath, name: &[u8]) -> (r: bool)
    ensures
        r == prunes(dir@, name@),
{
    let root = UnixPath::new("/");
    dir.same(&root) && (crate::unix_path::same_bytes(name, "proc".as_bytes())
        || crate::unix_path::same_bytes(name, "sys".as_bytes()))
}

/// How many milliseconds a count lets pass between two reports.
pub const REPORT_EVERY_MS: u64 = 120;

/// What a walk came upon.
#[derive(Clone, Copy, Debug, PartialEq, Eq, Structural)]
pub enum Visited {
    /// The directory that is counted itself.
    Root,
    /// A directory below it.
    Directory,
    /// A regular file, with its size where it could be read.
    File(Option<u64>),
    /// A link or another kind of entry.
    Other,
    /// An entry that could not be read.
    Unreadable,
}

/// The totals with one visited entry added.
pub open spec fn counted(s: DeepCountStats, v: Visited) -> DeepCountStats {
    match v {
        Visited::Directory => DeepCountStats { folders: (s.folders + 1) as u64, ..s },
        Visited::File(Some(n)) => DeepCountStats {
            files: (s.files + 1) as u64,
            bytes: (s.bytes + n) as u64,
            ..s
        },
        Visited::File(None) => DeepCountStats { files: (s.files + 1) as u64, ..s },
        _ => s,
    }
}

impl DeepCountStats {
    /// Adds what a walk came upon.
    pub fn visit(&mut self, v: Visited)
        requires
            old(self).files < u64::MAX,
            old(self).folders < u64::MAX,
            v matches Visited::File(Some(n)) ==> old(self).bytes + n <= u64::MAX,
        ensures
            *final(self) == counted(*old(self), v),
    {
        match v {
            Visited::Directory => {
                self.folders = self.folders + 1;
            },
            Visited::File(size) => {
                self.files = self.files + 1;
                match size {
                    Some(n) => {
                        self.bytes = self.bytes + n;
                    },
                    None => {},
                }
            },
            Visited::Root | Visited::Other | Visited::Unreadable => {},
        }
    }
}

/// How many flags stand before the first that is set.
pub open spec fn first_set(flags: Seq<bool>) -> int
    decreases flags.len(),
{
    if flags.len() == 0 || flags[0] {
        0
    } else {
        1 + first_set(flags.skip(1))
    }
}

pub proof fn lemma_first_set(flags: Seq<bool>)
    ensures
        0 <= first_set(flags) <= flags.len(),
        forall|i: int| 0 <= i < first_set(flags) ==> !#[trigger] flags[i],
        first_set(flags) < flags.len() ==> flags[first_set(flags)],
    decreases flags.len(),
{
    if flags.len() > 0 && !flags[0] {
        let rest = flags.skip(1);
        lemma_first_set(rest);
        assert forall|i: int| 0 <= i < first_set(flags) implies !#[trigger] flags[i] by {
            if i > 0 {
                assert(flags[i] == rest[i - 1]);
            }
        }
    }
}

/// How many flags stand before the first that is set.
pub fn count_unset(flags: &Vec<bool>) -> (r: usize)
    ensures
        r == first_set(flags@),
        r <= flags@.len(),
{
    let mut i: usize = 0;
    assert(flags@.skip(0) =~= flags@);
    while i < flags.len() && !flags[i]
        invariant
            i <= flags@.len(),
            first_set(flags@) == i + first_set(flags@.skip(i as int)),
        decreases flags@.len() - i,
    {
        assert(flags@.skip(i as int).skip(1) =~= flags@.skip(i + 1));
        i += 1;
    }
    i
}

/// The files, folders and bytes that an entry adds.
pub open spec fn adds(v: Visited) -> (int, int, int) {
    match v {
        Visited::Directory => (0, 1, 0),
        Visited::File(Some(n)) => (1, 0, n as int),
        Visited::File(None) => (1, 0, 0),
        _ => (0, 0, 0),
    }
}

/// The files, folders and bytes of the first `n` entries of a walk.
pub open spec fn tally_upto(v: Seq<Visited>, n: int) -> (int, int, int)
    decreases n,
{
    if n <= 0 {
        (0, 0, 0)
    } else {
        let a = tally_upto(v, n - 1);
        let b = adds(v[n - 1]);
        (a.0 + b.0, a.1 + b.1, a.2 + b.2)
    }
}

/// Totals as numbers.
pub open spec fn totals_of(s: DeepCountStats) -> (int, int, int) {
    (s.files as int, s.folders as int, s.bytes as int)
}

/// Whether totals are reported after an entry, where the last report was so many
/// milliseconds ago.
pub open spec fn report_due(v: Visited, since_ms: u64) -> bool {
    v != Visited::Root && v != Visited::Unreadable && since_ms >= REPORT_EVERY_MS
}

/// The totals that are reported over the first `n` entries of a walk.
pub open spec fn reports_upto(v: Seq<Visited>, since_ms: Seq<u64>, n: int) -> Seq<(int, int, int)>
    decreases n,
{
    if n <= 0 {
        Seq::empty()
    } else if report_due(v[n - 1], since_ms[n - 1]) {
        reports_upto(v, since_ms, n - 1).push(tally_upto(v, n))
    } else {
        reports_upto(v, since_ms, n - 1)
    }
}

/// Totals that were reported, as numbers.
pub open spec fn all_totals(reports: Seq<DeepCountStats>) -> Seq<(int, int, int)> {
    reports.map_values(|s: DeepCountStats| totals_of(s))
}

/// What is due after an entry of a count.
#[derive(Clone, Copy, Debug, PartialEq, Eq, Structural)]
pub enum CountStep {
    /// Nothing more: the count was cancelled.
    Stop,
    /// The next entry.
    Next,
    /// A report of the totals, then the next entry.
    Report(DeepCountStats),
}

impl DeepCountStats {
    /// Takes the next entry of a walk, `since_ms` milliseconds after the last
    /// report. A count that is cancelled takes nothing more, and reports nothing.
    pub fn step(&mut self, v: Visited, cancelled: bool, since_ms: u64) -> (r: CountStep)
        requires
            !cancelled ==> old(self).files < u64::MAX,
            !cancelled ==> old(self).folders < u64::MAX,
            !cancelled ==> (v matches Visited::File(Some(n)) ==> old(self).bytes + n <= u64::MAX),
        ensures
            cancelled ==> *final(self) == *old(self) && r is Stop,
            !cancelled ==> {
                &&& *final(self) == counted(*old(self), v)
                &&& r == if report_due(v, since_ms) {
                    CountStep::Report(*final(self))
                } else {
                    CountStep::Next
                }
            },
    {
        if cancelled {
            return CountStep::Stop;
        }
        self.visit(v);
        match v {
            Visited::Root | Visited::Unreadable => CountStep::Next,
            _ => if since_ms >= REPORT_EVERY_MS {
                CountStep::Report(*self)
            } else {
                CountStep::Next
            },
        }
    }
}

proof fn lemma_tally_grows(v: Seq<Visited>, n: int, m: int)
    requires
        0 <= n <= m <= v.len(),
    ensures
        0 <= tally_upto(v, n).0 <= tally_upto(v, m).0,
        0 <= tally_upto(v, n).1 <= tally_upto(v, m).1,
        0 <= tally_upto(v, n).2 <= tally_upto(v, m).2,
    decreases m,
{
    if m > 0 {
        if n < m {
            lemma_tally_grows(v, n, m - 1);
        } else {
            lemma_tally_grows(v, n - 1, n - 1);
        }
    }
}

/// Counts the entries of a walk that was made already. For each entry,
/// `cancelled` says whether the count was cancelled by then, and `since_ms` how
/// many milliseconds ago the last report was. Returns the totals, and what was
/// reported on the way.
pub fn deep_count(visited: &Vec<Visited>, cancelled: &Vec<bool>, since_ms: &Vec<u64>) -> (r: (
    DeepCountStats,
    Vec<DeepCountStats>,
))
    requires
        cancelled@.len() == visited@.len(),
        since_ms@.len() == visited@.len(),
        tally_upto(visited@, visited@.len() as int).0 < u64::MAX,
        tally_upto(visited@, visited@.len() as int).1 < u64::MAX,
        tally_upto(visited@, visited@.len() as int).2 <= u64::MAX,
    ensures
        totals_of(r.0) == tally_upto(visited@, first_set(cancelled@)),
        all_totals(r.1@) == reports_upto(visited@, since_ms@, first_set(cancelled@)),
        cancelled@.len() > 0 && cancelled@[0] ==> totals_of(r.0) == (0int, 0int, 0int)
            && r.1@.len() == 0,
{
    let end: usize = count_unset(cancelled);
    let mut stats = DeepCountStats::default();
    let mut reports: Vec<DeepCountStats> = Vec::new();
    proof {
        lemma_first_set(cancelled@);
        assert(all_totals(reports@) =~= reports_upto(visited@, since_ms@, 0));
    }
    let mut i: usize = 0;
    while i < end
        invariant
            i <= end <= visited@.len(),
            cancelled@.len() == visited@.len(),
            since_ms@.len() == visited@.len(),
            forall|k: int| 0 <= k < end ==> !#[trigger] cancelled@[k],
            tally_upto(visited@, visited@.len() as int).0 < u64::MAX,
            tally_upto(visited@, visited@.len() as int).1 < u64::MAX,
            tally_upto(visited@, visited@.len() as int).2 <= u64::MAX,
            totals_of(stats) == tally_upto(visited@, i as int),
            all_totals(reports@) == reports_upto(visited@, since_ms@, i as int),
        decreases end - i,
    {
        proof {
            lemma_tally_grows(visited@, i as int, visited@.len() as int);
            lemma_tally_grows(visited@, i + 1, visited@.len() as int);
        }
        let ghost before = reports@;
        match stats.step(visited[i], cancelled[i], since_ms[i]) {
            CountStep::Stop | CountStep::Next => {},
            CountStep::Report(s) => {
                reports.push(s);
                assert(all_totals(reports@) =~= all_totals(before).push(totals_of(s)));
            },
        }
        i += 1;
    }
    (stats, reports)
}

/// Once a count is cancelled nothing more makes a difference: whatever entries
/// follow, the totals and the reports are those of the entries before.
pub proof fn a_cancelled_count_stops(
    visited: Seq<Visited>,
    cancelled: Seq<bool>,
    since_ms: Seq<u64>,
    more: Seq<Visited>,
    flags: Seq<bool>,
    times: Seq<u64>,
)
    requires
        cancelled.len() == visited.len(),
        since_ms.len() == visited.len(),
        cancelled.contains(true),
    ensures
        first_set(cancelled + flags) == first_set(cancelled),
        tally_upto(visited + more, first_set(cancelled + flags)) == tally_upto(
            visited,
            first_set(cancelled),
        ),
        reports_upto(visited + more, since_ms + times, first_set(cancelled + flags))
            == reports_upto(visited, since_ms, first_set(cancelled)),
{
    lemma_first_set(cancelled);
    lemma_first_set(cancelled + flags);
    let n = first_set(cancelled);
    let m = first_set(cancelled + flags);
    let k = choose|k: int| 0 <= k < cancelled.len() && cancelled[k];
    assert(n < cancelled.len()) by {
        if n == cancelled.len() {
            assert(!cancelled[k]);
        }
    }
    assert((cancelled + flags)[n] == cancelled[n]);
    if m < n {
        assert((cancelled + flags)[m] == cancelled[m]);
    }
    lemma_same_tally(visited, since_ms, more, times, n);
}

proof fn lemma_same_tally(
    visited: Seq<Visited>,
    since_ms: Seq<u64>,
    more: Seq<Visited>,
    times: Seq<u64>,
    n: int,
)
    requires
        since_ms.len() == visited.len(),
        0 <= n <= visited.len(),
    ensures
        tally_upto(visited + more, n) == tally_upto(visited, n),
        reports_upto(visited + more, since_ms + times, n) == reports_upto(visited, since_ms, n),
    decreases n,
{
    if n > 0 {
        lemma_same_tally(visited, since_ms, more, times, n - 1);
    }
}

} // verus!
