//! Archives: which files are archives, where they are extracted to, and the
//! queue of archives that are extracted one after the other.
use crate::clipboard::{selected_paths, selection};
use crate::copy_run::path_views;
use crate::file_actions::chosen;
use crate::file_ops::{is_unique_destination, unique_destination};
use crate::listing::selected_entries;
use crate::state::AppState;
use crate::text::{
    chars_of, copy_opt, has_infix, lowercase, opt_view, same_text, string_of, text_contains,
    text_ends_with, to_lowercase,
};
use crate::types::{entry_views, EntryView, FileEntry, FileType};
use crate::unix_path::{file_name, lossy, lossy_text, parent, UnixPath};
use std::collections::VecDeque;
use vstd::prelude::*;
use vstd::string::*;
use vstd::utf8::*;

verus! {

/// How many extensions are known.
pub const ARCHIVE_EXTS: usize = 17;

/// The known extensions, those of two parts first.
pub open spec fn archive_ext(i: int) -> Seq<char> {
    if i == 0 {
        ".tar.gz"@
    } else if i == 1 {
        ".tar.bz2"@
    } else if i == 2 {
        ".tar.xz"@
    } else if i == 3 {
        ".tar.zst"@
    } else if i == 4 {
        ".zip"@
    } else if i == 5 {
        ".7z"@
    } else if i == 6 {
        ".rar"@
    } else if i == 7 {
        ".tar"@
    } else if i == 8 {
        ".tgz"@
    } else if i == 9 {
        ".tbz2"@
    } else if i == 10 {
        ".tbz"@
    } else if i == 11 {
        ".txz"@
    } else if i == 12 {
        ".tzst"@
    } else if i == 13 {
        ".gz"@
    } else if i == 14 {
        ".bz2"@
    } else if i == 15 {
        ".xz"@
    } else {
        ".zst"@
    }
}

fn nth_archive_ext(i: usize) -> (r: &'static str)
    ensures
        r@ == archive_ext(i as int),
{
    if i == 0 {
        ".tar.gz"
    } else if i == 1 {
        ".tar.bz2"
    } else if i == 2 {
        ".tar.xz"
    } else if i == 3 {
        ".tar.zst"
    } else if i == 4 {
        ".zip"
    } else if i == 5 {
        ".7z"
    } else if i == 6 {
        ".rar"
    } else if i == 7 {
        ".tar"
    } else if i == 8 {
        ".tgz"
    } else if i == 9 {
        ".tbz2"
    } else if i == 10 {
        ".tbz"
    } else if i == 11 {
        ".txz"
    } else if i == 12 {
        ".tzst"
    } else if i == 13 {
        ".gz"
    } else if i == 14 {
        ".bz2"
    } else if i == 15 {
        ".xz"
    } else {
        ".zst"
    }
}

/// Whether a name in lower case ends with the `i`-th known extension.
pub open spec fn has_ext(lower: Seq<char>, i: int) -> bool {
    archive_ext(i).is_suffix_of(lower)
}

/// Whether a name in lower case ends with a known extension.
pub open spec fn archive_name(lower: Seq<char>) -> bool {
    exists|i: int| 0 <= i < ARCHIVE_EXTS && #[trigger] has_ext(lower, i)
}

/// The first known extension that a name in lower case ends with.
pub fn archive_ext_of(lower: &str) -> (r: Option<usize>)
    ensures
        match r {
            Some(i) => i < ARCHIVE_EXTS && has_ext(lower@, i as int) && forall|k: int|
                0 <= k < i ==> !#[trigger] has_ext(lower@, k),
            None => !archive_name(lower@),
        },
{
    let mut i: usize = 0;
    while i < ARCHIVE_EXTS
        invariant
            i <= ARCHIVE_EXTS,
            forall|k: int| 0 <= k < i ==> !#[trigger] has_ext(lower@, k),
        decreases ARCHIVE_EXTS - i,
    {
        if text_ends_with(lower, nth_archive_ext(i)) {
            assert(has_ext(lower@, i as int));
            return Some(i);
        }
        assert(!has_ext(lower@, i as int));
        i += 1;
    }
    None
}

/// Whether a path has a file name with a known extension, in any case.
pub open spec fn archive_path(p: Seq<u8>) -> bool {
    file_name(p) matches Some(n) && archive_name(lowercase(lossy(n)))
}

/// Whether the name of a path is one of an archive.
pub fn is_archive_path(path: &UnixPath) -> (r: bool)
    ensures
        r == archive_path(path@),
{
    match path.file_name() {
        Some(n) => {
            let lower = to_lowercase(lossy_text(&n).as_str());
            archive_ext_of(lower.as_str()).is_some()
        },
        None => false,
    }
}

/// The MIME types of archives.
pub open spec fn archive_mime(m: Seq<char>) -> bool {
    ||| m == "application/zip"@
    ||| m == "application/x-7z-compressed"@
    ||| m == "application/x-rar-compressed"@
    ||| m == "application/vnd.rar"@
    ||| m == "application/gzip"@
    ||| m == "application/x-gzip"@
    ||| m == "application/x-bzip2"@
    ||| m == "application/x-xz"@
    ||| m == "application/zstd"@
    ||| m == "application/x-zstd"@
    ||| m == "application/x-tar"@
    ||| m == "application/x-compressed-tar"@
}

/// Whether a MIME type is one of an archive.
pub fn is_archive_mime(mime: &str) -> (r: bool)
    ensures
        r == archive_mime(mime@),
{
    same_text(mime, "application/zip") || same_text(mime, "application/x-7z-compressed")
        || same_text(mime, "application/x-rar-compressed") || same_text(mime, "application/vnd.rar")
        || same_text(mime, "application/gzip") || same_text(mime, "application/x-gzip")
        || same_text(mime, "application/x-bzip2") || same_text(mime, "application/x-xz")
        || same_text(mime, "application/zstd") || same_text(mime, "application/x-zstd")
        || same_text(mime, "application/x-tar") || same_text(mime, "application/x-compressed-tar")
}

/// Whether a file can be extracted: by its name or by its MIME type.
pub open spec fn archive_entry(e: EntryView) -> bool {
    e.file_type != FileType::Directory && (archive_path(e.path) || (e.mime matches Some(m)
        && archive_mime(m)))
}

/// Whether a file can be extracted.
pub fn is_archive_entry(e: &FileEntry) -> (r: bool)
    ensures
        r == archive_entry(e@),
{
    if e.is_dir() {
        return false;
    }
    if is_archive_path(&e.path) {
        return true;
    }
    match &e.mime {
        Some(m) => is_archive_mime(m.as_str()),
        None => false,
    }
}

/// The archives among the first `n` paths.
pub open spec fn archives_upto(paths: Seq<Seq<u8>>, n: int) -> Seq<Seq<u8>>
    decreases n,
{
    if n <= 0 {
        Seq::empty()
    } else if archive_path(paths[n - 1]) {
        archives_upto(paths, n - 1).push(paths[n - 1])
    } else {
        archives_upto(paths, n - 1)
    }
}

/// The paths of the archives among the first `n` entries.
pub open spec fn archive_entries_upto(es: Seq<EntryView>, n: int) -> Seq<Seq<u8>>
    decreases n,
{
    if n <= 0 {
        Seq::empty()
    } else if archive_entry(es[n - 1]) {
        archive_entries_upto(es, n - 1).push(es[n - 1].path)
    } else {
        archive_entries_upto(es, n - 1)
    }
}

/// The selected archives. Search results have no MIME type: there the name
/// alone decides. `rows` says which results are selected.
pub fn collect_selected_archives(state: &AppState, in_search: bool, rows: &Vec<bool>) -> (r: Vec<
    UnixPath,
>)
    ensures
        path_views(r@) == if in_search {
            let paths = selection(*state, true, rows@);
            archives_upto(paths, paths.len() as int)
        } else {
            let es = chosen(*state);
            archive_entries_upto(es, es.len() as int)
        },
{
    let mut r: Vec<UnixPath> = Vec::new();
    let mut i: usize = 0;
    if in_search {
        let paths = selected_paths(state, true, rows);
        let ghost ps = path_views(paths@);
        assert(path_views(r@) =~= archives_upto(ps, 0));
        while i < paths.len()
            invariant
                i <= paths@.len(),
                ps == path_views(paths@),
                path_views(r@) == archives_upto(ps, i as int),
            decreases paths@.len() - i,
        {
            assert(ps[i as int] == paths@[i as int]@);
            if is_archive_path(&paths[i]) {
                let ghost before = r@;
                r.push(paths[i].clone());
                assert(path_views(r@) =~= path_views(before).push(ps[i as int]));
            }
            i += 1;
        }
        return r;
    }
    let entries = selected_entries(&state.entries, &state.selected);
    let ghost es = entry_views(entries@);
    assert(path_views(r@) =~= archive_entries_upto(es, 0));
    while i < entries.len()
        invariant
            i <= entries@.len(),
            es == entry_views(entries@),
            path_views(r@) == archive_entries_upto(es, i as int),
        decreases entries@.len() - i,
    {
        assert(es[i as int] == entries@[i as int]@);
        if is_archive_entry(&entries[i]) {
            let ghost before = r@;
            r.push(entries[i].path.clone());
            assert(path_views(r@) =~= path_views(before).push(es[i as int].path));
        }
        i += 1;
    }
    r
}

/// A name without the first known extension that `lower`, the name in lower
/// case, ends with.
pub open spec fn stripped(name: Seq<char>, lower: Seq<char>, r: Seq<char>) -> bool {
    if archive_name(lower) {
        exists|i: int|
            0 <= i < ARCHIVE_EXTS && #[trigger] has_ext(lower, i) && (forall|k: int|
                0 <= k < i ==> !#[trigger] has_ext(lower, k)) && r == without_last(
                name,
                archive_ext(i).len() as int,
            )
    } else {
        r == name
    }
}

/// A text without its last `n` characters.
pub open spec fn without_last(s: Seq<char>, n: int) -> Seq<char> {
    if n <= s.len() {
        s.take(s.len() - n)
    } else {
        Seq::empty()
    }
}

/// Strips the extension off an archive's name, given the name in lower case.
pub fn strip_extensions_by(name: &str, lower: &str) -> (r: String)
    ensures
        stripped(name@, lower@, r@),
{
    match archive_ext_of(lower) {
        Some(i) => {
            assert(archive_name(lower@));
            let ext = chars_of(nth_archive_ext(i));
            let v = chars_of(name);
            if ext.len() <= v.len() {
                let n: usize = v.len() - ext.len();
                assert(v@.subrange(0, n as int) =~= name@.take(n as int));
                let r = string_of(&v[0..n]);
                assert(r@ == without_last(name@, archive_ext(i as int).len() as int));
                r
            } else {
                let r = String::new();
                assert(r@ =~= without_last(name@, archive_ext(i as int).len() as int));
                r
            }
        },
        None => name.to_owned(),
    }
}

/// Strips the extension off an archive's name.
pub fn strip_archive_extensions(name: &str) -> (r: String)
    ensures
        stripped(name@, lowercase(name@), r@),
{
    let lower = to_lowercase(name);
    strip_extensions_by(name, lower.as_str())
}

/// The directory that an archive lies in.
pub open spec fn dir_of(p: Seq<u8>) -> Seq<u8> {
    match parent(p) {
        Some(d) => d,
        None => encode_utf8("."@),
    }
}

/// The name that the extraction of an archive is named after.
pub open spec fn extraction_name(p: Seq<u8>) -> Seq<char> {
    match file_name(p) {
        Some(n) => lossy(n),
        None => "extracted"@,
    }
}

/// Where an archive is extracted to: beside it, under its name without the
/// extension, at a place where `occupied` finds nothing.
pub fn destination_for<F: Fn(&UnixPath) -> bool>(archive: &UnixPath, occupied: F) -> (r: UnixPath)
    requires
        forall|q: UnixPath| call_requires(occupied, (&q,)),
    ensures
        exists|stem: Seq<char>|
            stripped(extraction_name(archive@), lowercase(extraction_name(archive@)), stem)
                && #[trigger] is_unique_destination(occupied, dir_of(archive@), stem, r@),
{
    let dir = match archive.parent() {
        Some(d) => d,
        None => UnixPath::new("."),
    };
    let name: String = match archive.file_name() {
        Some(n) => lossy_text(&n),
        None => "extracted".to_owned(),
    };
    let stem = strip_archive_extensions(name.as_str());
    let r = unique_destination(&dir, stem.as_str(), occupied);
    assert(is_unique_destination(occupied, dir_of(archive@), stem@, r@));
    r
}

// ---------------------------------------------------------------------------
// The extractor
// ---------------------------------------------------------------------------

/// The arguments with which an archive is extracted. A password is always
/// given, if only an empty one, so that nothing is asked.
pub fn extract_args(archive: &UnixPath, dest: &UnixPath, password: &Option<String>) -> (r: Vec<
    UnixPath,
>)
    ensures
        r@.len() == 5,
        r@[0]@ == encode_utf8("x"@),
        r@[1]@ == archive@,
        r@[2]@ == encode_utf8("-o"@ + lossy(dest@)),
        r@[3]@ == match *password {
            Some(p) => encode_utf8("-p"@ + p@),
            None => encode_utf8("-p"@),
        },
        r@[4]@ == encode_utf8("-y"@),
{
    let mut out: String = "-o".to_owned();
    out.append(dest.display().as_str());
    let mut pw: String = "-p".to_owned();
    if let Some(p) = password {
        pw.append(p.as_str());
    }
    let mut v: Vec<UnixPath> = Vec::new();
    v.push(UnixPath::new("x"));
    v.push(archive.clone());
    v.push(UnixPath::new(out.as_str()));
    v.push(UnixPath::new(pw.as_str()));
    v.push(UnixPath::new("-y"));
    v
}

/// Why an archive was not extracted.
#[derive(Debug)]
pub enum ExtractError {
    WrongPassword,
    ToolMissing,
    Other(String),
}

/// Whether what the extractor printed, in lower case, says that the password is
/// missing or wrong.
pub open spec fn says_wrong_password(lower: Seq<char>) -> bool {
    ||| has_infix(lower, "wrong password"@)
    ||| has_infix(lower, "data error in encrypted file"@)
    ||| has_infix(lower, "cannot open encrypted"@)
    ||| has_infix(lower, "can not open encrypted"@)
    ||| has_infix(lower, "encrypted archive"@)
    ||| has_infix(lower, "enter password"@)
}

/// Whether what the extractor printed, in lower case, says that the password is
/// missing or wrong.
pub fn is_password_complaint(lower: &str) -> (r: bool)
    ensures
        r == says_wrong_password(lower@),
{
    text_contains(lower, "wrong password") || text_contains(lower, "data error in encrypted file")
        || text_contains(lower, "cannot open encrypted") || text_contains(
        lower,
        "can not open encrypted",
    ) || text_contains(lower, "encrypted archive") || text_contains(lower, "enter password")
}

/// What came of running the extractor.
#[derive(Debug)]
pub enum ExtractRun {
    /// The destination could not be made.
    NoDestination(String),
    /// The extractor is not installed.
    NotFound,
    /// The extractor could not be started.
    NotStarted(String),
    /// The extractor ended: with success or not, and what it printed to its two
    /// outputs.
    Ended(bool, Vec<u8>, Vec<u8>),
}

/// The error that a run of the extractor amounts to, or none.
pub open spec fn extract_error(run: ExtractRun) -> Option<ErrorView> {
    match run {
        ExtractRun::NoDestination(m) => Some(ErrorView::Other("create dest: "@ + m@)),
        ExtractRun::NotFound => Some(ErrorView::ToolMissing),
        ExtractRun::NotStarted(m) => Some(ErrorView::Other("spawn 7z: "@ + m@)),
        ExtractRun::Ended(success, stdout, stderr) => if success {
            None
        } else if says_wrong_password(lowercase(lossy(stdout@) + lossy(stderr@))) {
            Some(ErrorView::WrongPassword)
        } else {
            Some(ErrorView::Other(lossy(stderr@)))
        },
    }
}

/// An error in mathematical terms.
pub enum ErrorView {
    WrongPassword,
    ToolMissing,
    Other(Seq<char>),
}

impl View for ExtractError {
    type V = ErrorView;

    open spec fn view(&self) -> ErrorView {
        match self {
            ExtractError::WrongPassword => ErrorView::WrongPassword,
            ExtractError::ToolMissing => ErrorView::ToolMissing,
            ExtractError::Other(m) => ErrorView::Other(m@),
        }
    }
}

/// Says what a run of the extractor amounts to.
pub fn extract_via_7z(run: ExtractRun) -> (r: Result<(), ExtractError>)
    ensures
        match r {
            Ok(_) => extract_error(run) is None,
            Err(e) => extract_error(run) == Some(e@),
        },
{
    match run {
        ExtractRun::NoDestination(m) => {
            let mut s: String = "create dest: ".to_owned();
            s.append(m.as_str());
            Err(ExtractError::Other(s))
        },
        ExtractRun::NotFound => Err(ExtractError::ToolMissing),
        ExtractRun::NotStarted(m) => {
            let mut s: String = "spawn 7z: ".to_owned();
            s.append(m.as_str());
            Err(ExtractError::Other(s))
        },
        ExtractRun::Ended(success, stdout, stderr) => {
            if success {
                return Ok(());
            }
            let mut printed = lossy_text(&stdout);
            let errors = lossy_text(&stderr);
            printed.append(errors.as_str());
            let lower = to_lowercase(printed.as_str());
            if is_password_complaint(lower.as_str()) {
                Err(ExtractError::WrongPassword)
            } else {
                Err(ExtractError::Other(errors))
            }
        },
    }
}

// ---------------------------------------------------------------------------
// The queue
// ---------------------------------------------------------------------------

/// The archives that are still to be extracted.
pub struct ExtractState {
    /// Those after the current one.
    pub queue: VecDeque<UnixPath>,
    /// The one that is being extracted or waits for a password.
    pub current: Option<UnixPath>,
    /// The last password that worked.
    pub cached_password: Option<String>,
}

/// The queue in mathematical terms.
pub struct QueueView {
    pub queue: Seq<Seq<u8>>,
    pub current: Option<Seq<u8>>,
    pub password: Option<Seq<char>>,
}

impl View for ExtractState {
    type V = QueueView;

    open spec fn view(&self) -> QueueView {
        QueueView {
            queue: self.queue@.map_values(|p: UnixPath| p@),
            current: crate::user_dirs::opt_path(self.current),
            password: opt_view(self.cached_password),
        }
    }
}

/// What is to be done next.
#[derive(Debug)]
pub enum ExtractStep {
    /// All archives are done: show the new folders.
    Refresh,
    /// Extract an archive, with a password if there is one.
    Run(UnixPath, Option<String>),
    /// Ask for the password of an archive; whether one was tried before.
    AskPassword(String, bool),
    /// Nothing.
    Idle,
}

/// What is to be done next, in mathematical terms.
pub enum StepView {
    Refresh,
    Run(Seq<u8>, Option<Seq<char>>),
    AskPassword(Seq<char>, bool),
    Idle,
}

impl View for ExtractStep {
    type V = StepView;

    open spec fn view(&self) -> StepView {
        match self {
            ExtractStep::Refresh => StepView::Refresh,
            ExtractStep::Run(p, w) => StepView::Run(p@, opt_view(*w)),
            ExtractStep::AskPassword(n, retry) => StepView::AskPassword(n@, *retry),
            ExtractStep::Idle => StepView::Idle,
        }
    }
}

/// The queue after it went on to the next archive, and what is to be done: the
/// archive is tried with the given password or else with the last one that
/// worked.
pub open spec fn advanced(q: QueueView, explicit: Option<Seq<char>>) -> (QueueView, StepView) {
    if q.queue.len() == 0 {
        (QueueView { current: None, ..q }, StepView::Refresh)
    } else {
        let a = q.queue[0];
        (
            QueueView { queue: q.queue.skip(1), current: Some(a), ..q },
            StepView::Run(
                a,
                if explicit is Some {
                    explicit
                } else {
                    q.password
                },
            ),
        )
    }
}

/// The name under which the password of an archive is asked for.
pub open spec fn asked_name(p: Seq<u8>) -> Seq<char> {
    match file_name(p) {
        Some(n) => lossy(n),
        None => lossy(p),
    }
}

/// The queue after an archive was tried with the password `tried`.
pub open spec fn after_run(
    q: QueueView,
    tried: Option<Seq<char>>,
    error: Option<ErrorView>,
) -> (QueueView, StepView) {
    match error {
        None => advanced(
            QueueView {
                password: if tried is Some {
                    tried
                } else {
                    q.password
                },
                ..q
            },
            None,
        ),
        Some(ErrorView::WrongPassword) => (
            q,
            match q.current {
                Some(a) => StepView::AskPassword(asked_name(a), tried is Some),
                None => StepView::Idle,
            },
        ),
        Some(ErrorView::ToolMissing) => (
            QueueView { queue: Seq::empty(), current: None, ..q },
            StepView::Idle,
        ),
        Some(ErrorView::Other(_)) => advanced(q, None),
    }
}

/// The queue with nothing in it.
pub open spec fn idle_queue() -> QueueView {
    QueueView { queue: Seq::empty(), current: None, password: None }
}

impl ExtractState {
    /// A queue with nothing in it.
    pub fn new() -> (r: Self)
        ensures
            r@ == idle_queue(),
    {
        let r = ExtractState { queue: VecDeque::new(), current: None, cached_password: None };
        assert(r@.queue =~= Seq::empty());
        r
    }

    /// Begins a batch and goes to its first archive. No password has worked in
    /// it yet.
    pub fn start(&mut self, archives: Vec<UnixPath>) -> (r: ExtractStep)
        ensures
            (final(self)@, r@) == advanced(
                QueueView {
                    queue: path_views(archives@),
                    current: None,
                    password: None,
                },
                None,
            ),
    {
        let mut queue: VecDeque<UnixPath> = VecDeque::new();
        let mut i: usize = 0;
        while i < archives.len()
            invariant
                i <= archives@.len(),
                queue@.len() == i,
                forall|k: int| 0 <= k < i ==> (#[trigger] queue@[k])@ == archives@[k]@,
            decreases archives@.len() - i,
        {
            queue.push_back(archives[i].clone());
            i += 1;
        }
        self.queue = queue;
        self.current = None;
        self.cached_password = None;
        assert(self@.queue =~= path_views(archives@));
        self.process_next(None)
    }

    /// Goes on to the next archive.
    pub fn process_next(&mut self, explicit_pw: Option<String>) -> (r: ExtractStep)
        ensures
            (final(self)@, r@) == advanced(old(self)@, opt_view(explicit_pw)),
    {
        let ghost before = self@;
        match self.queue.pop_front() {
            Some(archive) => {
                self.current = Some(archive.clone());
                assert(self@.queue =~= before.queue.skip(1));
                let pw: Option<String> = match explicit_pw {
                    Some(p) => Some(p),
                    None => copy_opt(&self.cached_password),
                };
                ExtractStep::Run(archive, pw)
            },
            None => {
                self.current = None;
                assert(self@.queue =~= before.queue);
                ExtractStep::Refresh
            },
        }
    }

    /// Tries the current archive with a password that the user gave.
    pub fn run_current(&self, pw: Option<String>) -> (r: ExtractStep)
        ensures
            r@ == match self@.current {
                Some(a) => StepView::Run(a, opt_view(pw)),
                None => StepView::Idle,
            },
    {
        match &self.current {
            Some(a) => ExtractStep::Run(a.clone(), pw),
            None => ExtractStep::Idle,
        }
    }

    /// Takes the result of trying the current archive with the password `pw`.
    pub fn finished(&mut self, pw: Option<String>, result: Result<(), ExtractError>) -> (r:
        ExtractStep)
        ensures
            (final(self)@, r@) == after_run(
                old(self)@,
                opt_view(pw),
                match result {
                    Ok(_) => None,
                    Err(e) => Some(e@),
                },
            ),
    {
        let ghost before = self@;
        match result {
            Ok(_) => {
                if pw.is_some() {
                    self.cached_password = pw;
                }
                self.process_next(None)
            },
            Err(ExtractError::WrongPassword) => {
                match &self.current {
                    Some(a) => {
                        let name: String = match a.file_name() {
                            Some(n) => lossy_text(&n),
                            None => a.display(),
                        };
                        ExtractStep::AskPassword(name, pw.is_some())
                    },
                    None => ExtractStep::Idle,
                }
            },
            Err(ExtractError::ToolMissing) => {
                self.queue.clear();
                self.current = None;
                assert(self@.queue =~= Seq::empty());
                ExtractStep::Idle
            },
            Err(ExtractError::Other(_)) => self.process_next(None),
        }
    }

    /// Drops the batch.
    pub fn cancel(&mut self)
        ensures
            final(self)@ == idle_queue(),
    {
        self.queue.clear();
        self.current = None;
        self.cached_password = None;
        assert(self@.queue =~= Seq::empty());
    }
}

/// A password that worked is the first guess for the next archive of the batch.
pub proof fn working_password_is_tried_next(q: QueueView, pw: Seq<char>)
    requires
        q.queue.len() > 0,
    ensures
        after_run(q, Some(pw), None).1 == StepView::Run(q.queue[0], Some(pw)),
        after_run(q, Some(pw), None).0.current == Some(q.queue[0]),
{
}

/// A failure other than a missing extractor loses no archive: the rest of the
/// batch is still in the queue, in order.
pub proof fn failed_archive_does_not_stop_the_batch(
    q: QueueView,
    tried: Option<Seq<char>>,
    error: ErrorView,
)
    requires
        error is Other || error is WrongPassword,
    ensures
        error is WrongPassword ==> after_run(q, tried, Some(error)).0 == q,
        error is Other && q.queue.len() > 0 ==> after_run(q, tried, Some(error)).1
            == StepView::Run(q.queue[0], q.password) && after_run(q, tried, Some(error)).0.queue
            == q.queue.skip(1),
{
}

} // verus!
