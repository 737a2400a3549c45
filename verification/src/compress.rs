//! Creating archives: the command that is run, what its output says of the
//! progress, and how the run ends.
use crate::archive::dir_of;
use crate::calendar::wrap_i32;
use crate::copy_run::path_views;
use crate::format_util::{human_size, size_text};
use crate::num_text::{is_decimal, value_of};
use crate::text::{
    chars_of, opt_view, string_of, strip_prefix, trim, trim_text, trimmed, without_prefix,
};
use crate::unix_path::{file_name, file_stem, joined, lossy, lossy_text, UnixPath};
use vstd::prelude::*;
use vstd::string::*;
use vstd::utf8::*;

verus! {

/// The formats that can be created.
#[derive(Clone, Copy, Debug, PartialEq, Eq, Structural)]
pub enum ArchiveFormat {
    Zip,
    SevenZip,
    TarGz,
}

/// The format with a code of the dialog.
pub open spec fn format_of(code: i32) -> ArchiveFormat {
    if code == 1 {
        ArchiveFormat::SevenZip
    } else if code == 2 {
        ArchiveFormat::TarGz
    } else {
        ArchiveFormat::Zip
    }
}

/// The extension of a format.
pub open spec fn format_ext(f: ArchiveFormat) -> Seq<char> {
    match f {
        ArchiveFormat::Zip => "zip"@,
        ArchiveFormat::SevenZip => "7z"@,
        ArchiveFormat::TarGz => "tar.gz"@,
    }
}

/// The program that creates a format.
pub open spec fn format_tool(f: ArchiveFormat) -> Seq<char> {
    if f == ArchiveFormat::TarGz {
        "tar"@
    } else {
        "7z"@
    }
}

impl ArchiveFormat {
    /// The format with a code of the dialog.
    pub fn from_code(code: i32) -> (r: Self)
        ensures
            r == format_of(code),
    {
        if code == 1 {
            ArchiveFormat::SevenZip
        } else if code == 2 {
            ArchiveFormat::TarGz
        } else {
            ArchiveFormat::Zip
        }
    }

    /// The extension.
    pub fn ext(self) -> (r: &'static str)
        ensures
            r@ == format_ext(self),
    {
        match self {
            ArchiveFormat::Zip => "zip",
            ArchiveFormat::SevenZip => "7z",
            ArchiveFormat::TarGz => "tar.gz",
        }
    }

    /// The program.
    pub fn tool(self) -> (r: &'static str)
        ensures
            r@ == format_tool(self),
    {
        match self {
            ArchiveFormat::TarGz => "tar",
            _ => "7z",
        }
    }
}

// ---------------------------------------------------------------------------
// The request
// ---------------------------------------------------------------------------

/// The name that the dialog proposes: that of a single item, else `archive`.
pub open spec fn default_name(paths: Seq<Seq<u8>>) -> Seq<char> {
    if paths.len() == 1 {
        match file_stem(paths[0]) {
            Some(s) => lossy(s),
            None => "archive"@,
        }
    } else {
        "archive"@
    }
}

/// The directory of the new archive and the name that the dialog proposes;
/// nothing without a selection.
pub fn request_compress(paths: &Vec<UnixPath>) -> (r: Option<(UnixPath, String)>)
    ensures
        match r {
            Some((dir, name)) => paths@.len() > 0 && dir@ == dir_of(paths@[0]@) && name@
                == default_name(path_views(paths@)),
            None => paths@.len() == 0,
        },
{
    if paths.len() == 0 {
        return None;
    }
    let dir = match paths[0].parent() {
        Some(d) => d,
        None => UnixPath::new("."),
    };
    let name: String = if paths.len() == 1 {
        match paths[0].file_stem() {
            Some(s) => lossy_text(&s),
            None => "archive".to_owned(),
        }
    } else {
        "archive".to_owned()
    };
    Some((dir, name))
}

/// What is to be packed.
#[derive(Debug)]
pub struct CompressJob {
    /// The names to pack, in the directory of the archive.
    pub names: Vec<UnixPath>,
    /// The paths of the same.
    pub sources: Vec<UnixPath>,
    pub password: Option<String>,
}

/// The names of the first `n` paths that have one.
pub open spec fn names_of(paths: Seq<Seq<u8>>, n: int) -> Seq<Seq<u8>>
    decreases n,
{
    if n <= 0 {
        Seq::empty()
    } else {
        match file_name(paths[n - 1]) {
            Some(name) => names_of(paths, n - 1).push(name),
            None => names_of(paths, n - 1),
        }
    }
}

/// Prepares packing what the dialog was opened for; nothing without a selection
/// or a name.
pub fn start_compress(dir: &UnixPath, paths: &Vec<UnixPath>, name: &str, password: String) -> (r:
    Option<CompressJob>)
    ensures
        r is None <==> paths@.len() == 0 || trimmed(name@).len() == 0,
        r matches Some(job) ==> {
            &&& path_views(job.names@) == names_of(path_views(paths@), paths@.len() as int)
            &&& path_views(job.sources@) == path_views(job.names@).map_values(
                |n: Seq<u8>| joined(dir@, n),
            )
            &&& opt_view(job.password) == if password@.len() == 0 {
                None
            } else {
                Some(password@)
            }
        },
{
    if paths.len() == 0 || trim_text(name).as_str().is_empty() {
        return None;
    }
    let ghost ps = path_views(paths@);
    let mut names: Vec<UnixPath> = Vec::new();
    let mut sources: Vec<UnixPath> = Vec::new();
    let mut i: usize = 0;
    assert(path_views(names@) =~= names_of(ps, 0));
    while i < paths.len()
        invariant
            i <= paths@.len(),
            ps == path_views(paths@),
            path_views(names@) == names_of(ps, i as int),
            names@.len() == sources@.len(),
            forall|k: int|
                0 <= k < names@.len() ==> (#[trigger] sources@[k])@ == joined(dir@, names@[k]@),
        decreases paths@.len() - i,
    {
        if let Some(n) = paths[i].file_name() {
            let ghost before = names@;
            sources.push(dir.join_bytes(&n));
            names.push(UnixPath { bytes: n });
            assert(path_views(names@) =~= path_views(before).push(n@));
        }
        i += 1;
    }
    assert(path_views(sources@) =~= path_views(names@).map_values(
        |n: Seq<u8>| joined(dir@, n),
    ));
    let password: Option<String> = if password.as_str().is_empty() {
        None
    } else {
        Some(password)
    };
    Some(CompressJob { names, sources, password })
}

/// The name of the new archive.
pub open spec fn output_name(base: Seq<char>, f: ArchiveFormat) -> Seq<char> {
    trimmed(base) + "."@ + format_ext(f)
}

/// The name of the new archive.
pub fn archive_file_name(base: &str, f: ArchiveFormat) -> (r: String)
    ensures
        r@ == output_name(base@, f),
{
    let mut s = trim_text(base);
    s.append(".");
    s.append(f.ext());
    s
}

/// The arguments that encrypt an archive.
pub open spec fn password_args(f: ArchiveFormat, pw: Option<Seq<char>>) -> Seq<Seq<u8>> {
    match pw {
        Some(p) => seq![
            encode_utf8("-p"@ + p),
            if f == ArchiveFormat::SevenZip {
                encode_utf8("-mhe=on"@)
            } else {
                encode_utf8("-mem=AES256"@)
            },
        ],
        None => Seq::empty(),
    }
}

/// The arguments of the program that creates an archive. A `tar.gz` cannot be
/// encrypted.
pub open spec fn command_args(
    f: ArchiveFormat,
    out: Seq<u8>,
    names: Seq<Seq<u8>>,
    pw: Option<Seq<char>>,
) -> Seq<Seq<u8>> {
    if f == ArchiveFormat::TarGz {
        seq![encode_utf8("-czvf"@), out] + names
    } else {
        seq![
            encode_utf8("a"@),
            if f == ArchiveFormat::SevenZip {
                encode_utf8("-t7z"@)
            } else {
                encode_utf8("-tzip"@)
            },
        ] + password_args(f, pw) + seq![
            encode_utf8("-y"@),
            encode_utf8("-bsp1"@),
            encode_utf8("-bb1"@),
            out,
        ] + names
    }
}

/// The arguments of the program that creates an archive.
pub fn archive_args(
    f: ArchiveFormat,
    out: &UnixPath,
    names: &Vec<UnixPath>,
    password: &Option<String>,
) -> (r: Vec<UnixPath>)
    ensures
        path_views(r@) == command_args(f, out@, path_views(names@), opt_view(*password)),
{
    let mut v: Vec<UnixPath> = Vec::new();
    if f == ArchiveFormat::TarGz {
        v.push(UnixPath::new("-czvf"));
        v.push(out.clone());
    } else {
        v.push(UnixPath::new("a"));
        if f == ArchiveFormat::SevenZip {
            v.push(UnixPath::new("-t7z"));
        } else {
            v.push(UnixPath::new("-tzip"));
        }
        if let Some(p) = password {
            let mut pw: String = "-p".to_owned();
            pw.append(p.as_str());
            v.push(UnixPath::new(pw.as_str()));
            if f == ArchiveFormat::SevenZip {
                v.push(UnixPath::new("-mhe=on"));
            } else {
                v.push(UnixPath::new("-mem=AES256"));
            }
        }
        v.push(UnixPath::new("-y"));
        v.push(UnixPath::new("-bsp1"));
        v.push(UnixPath::new("-bb1"));
        v.push(out.clone());
    }
    let ghost fixed = path_views(v@);
    assert(fixed + path_views(names@) =~= command_args(
        f,
        out@,
        path_views(names@),
        opt_view(*password),
    ));
    let mut i: usize = 0;
    assert(path_views(names@).take(0) =~= Seq::empty());
    assert(path_views(v@) =~= fixed + path_views(names@).take(0));
    while i < names.len()
        invariant
            i <= names@.len(),
            path_views(v@) == fixed + path_views(names@).take(i as int),
        decreases names@.len() - i,
    {
        let ghost before = v@;
        v.push(names[i].clone());
        proof {
            assert(path_views(v@) =~= path_views(before).push(names@[i as int]@));
            assert(path_views(names@).take(i + 1) =~= path_views(names@).take(i as int).push(
                names@[i as int]@,
            ));
            assert(path_views(v@) =~= fixed + path_views(names@).take(i + 1));
        }
        i += 1;
    }
    assert(path_views(names@).take(i as int) =~= path_views(names@));
    v
}

// ---------------------------------------------------------------------------
// Reading the output
// ---------------------------------------------------------------------------

/// The digits right before position `i`.
pub open spec fn digits_before(s: Seq<char>, i: int) -> Seq<char>
    decreases i,
{
    if 0 < i <= s.len() && is_decimal(s[i - 1]) {
        digits_before(s, i - 1).push(s[i - 1])
    } else {
        Seq::empty()
    }
}

/// Whether a percentage ends at position `i`.
pub open spec fn percent_at(s: Seq<char>, i: int) -> bool {
    0 < i < s.len() && s[i] == '%' && is_decimal(s[i - 1])
}

/// The smaller of two numbers.
pub open spec fn least(a: int, b: int) -> int {
    if a <= b {
        a
    } else {
        b
    }
}

/// The value of the digits right before position `i`, at most one hundred.
fn capped_value(s: &[char], i: usize) -> (r: u64)
    requires
        i <= s@.len(),
    ensures
        r == least(value_of(digits_before(s@, i as int)), 100),
        r >= 0,
    decreases i,
{
    if i > 0 && '0' <= s[i - 1] && s[i - 1] <= '9' {
        let before: u64 = capped_value(s, i - 1);
        let d: u64 = (s[i - 1] as u32 - 48) as u64;
        proof {
            let ds = digits_before(s@, i as int);
            assert(ds.drop_last() =~= digits_before(s@, i - 1));
            assert(ds.last() == s@[i - 1]);
        }
        let v: u64 = before * 10 + d;
        if v > 100 {
            100
        } else {
            v
        }
    } else {
        0
    }
}

/// The first percentage in a line, at most one hundred.
pub fn parse_percent(line: &[char]) -> (r: Option<u64>)
    ensures
        match r {
            Some(p) => exists|i: int|
                #[trigger] percent_at(line@, i) && (forall|k: int|
                    0 <= k < i ==> !#[trigger] percent_at(line@, k)) && p == least(
                    value_of(digits_before(line@, i)),
                    100,
                ),
            None => forall|k: int| !#[trigger] percent_at(line@, k),
        },
{
    let mut i: usize = 0;
    while i < line.len()
        invariant
            i <= line@.len(),
            forall|k: int| 0 <= k < i ==> !#[trigger] percent_at(line@, k),
        decreases line@.len() - i,
    {
        if line[i] == '%' && i > 0 && '0' <= line[i - 1] && line[i - 1] <= '9' {
            assert(percent_at(line@, i as int));
            return Some(capped_value(line, i));
        }
        assert(!percent_at(line@, i as int));
        i += 1;
    }
    None
}

/// The file that a line of the packer names.
pub open spec fn packed_file(line: Seq<char>) -> Option<Seq<char>> {
    match without_prefix(line, "+ "@) {
        Some(rest) => Some(rest),
        None => match without_prefix(line, "Compressing"@) {
            Some(rest) => if trimmed(rest).len() == 0 {
                None
            } else {
                Some(trimmed(rest))
            },
            None => None,
        },
    }
}

/// The file that a line of the packer names.
pub fn detect_7z_file(line: &[char]) -> (r: Option<String>)
    ensures
        opt_view(r) == packed_file(line@),
{
    if let Some(rest) = strip_prefix(line, "+ ") {
        return Some(string_of(rest));
    }
    match strip_prefix(line, "Compressing") {
        Some(rest) => {
            let t = trim(rest);
            if t.len() == 0 {
                None
            } else {
                Some(string_of(t))
            }
        },
        None => None,
    }
}

/// How far a run has come: the fraction is `part` of `whole`.
#[derive(Clone, Copy, Debug, PartialEq, Eq, Structural)]
pub struct Fraction {
    pub part: u64,
    pub whole: u64,
}

/// What a line of output says.
#[derive(Debug)]
pub struct ArchiveUpdate {
    /// The file at hand; empty if the line names none.
    pub current: String,
    /// How many files are done, as far as that is known from their names.
    pub files_done: Option<u64>,
    pub fraction: Fraction,
}

/// What a line of output says, in mathematical terms.
pub struct UpdateView {
    pub current: Seq<char>,
    pub files_done: Option<u64>,
    pub fraction: Fraction,
}

impl View for ArchiveUpdate {
    type V = UpdateView;

    open spec fn view(&self) -> UpdateView {
        UpdateView {
            current: self.current@,
            files_done: self.files_done,
            fraction: self.fraction,
        }
    }
}

/// The views of a list of updates.
pub open spec fn update_views(v: Seq<ArchiveUpdate>) -> Seq<UpdateView> {
    v.map_values(|u: ArchiveUpdate| u@)
}

/// What was read so far.
#[verifier::ext_equal]
pub struct ReaderView {
    pub format: ArchiveFormat,
    pub files_total: int,
    /// The line that has not ended yet.
    pub line: Seq<char>,
    pub files_done: int,
    pub fraction: Fraction,
}

/// The first percentage in a line.
pub open spec fn line_percent(line: Seq<char>) -> Option<u64> {
    if exists|i: int| percent_at(line, i) {
        let i = choose|i: int|
            #[trigger] percent_at(line, i) && (forall|k: int|
                0 <= k < i ==> !#[trigger] percent_at(line, k));
        Some(least(value_of(digits_before(line, i)), 100) as u64)
    } else {
        None
    }
}

/// The reader after a line, and what the line says. Each line of `tar` names a
/// file; a line of the packer names a file, gives a percentage, both or
/// neither.
pub open spec fn read_line(r: ReaderView, line: Seq<char>) -> (ReaderView, Option<UpdateView>) {
    let t = trimmed(line);
    let tar = r.format == ArchiveFormat::TarGz;
    let named = if tar {
        Some(t)
    } else {
        packed_file(t)
    };
    let percent = if tar {
        None
    } else {
        line_percent(t)
    };
    if t.len() == 0 || (named is None && percent is None) {
        (r, None)
    } else {
        let done = if named is Some {
            r.files_done + 1
        } else {
            r.files_done
        };
        let fraction = if tar {
            if r.files_total > 0 {
                Fraction {
                    part: least(done, r.files_total) as u64,
                    whole: r.files_total as u64,
                }
            } else {
                r.fraction
            }
        } else {
            match percent {
                Some(p) => Fraction { part: p, whole: 100 },
                None => r.fraction,
            }
        };
        let after = ReaderView { files_done: done, fraction, ..r };
        let update = UpdateView {
            current: match named {
                Some(n) => n,
                None => Seq::empty(),
            },
            files_done: if done > 0 {
                Some(least(done, r.files_total) as u64)
            } else {
                None
            },
            fraction,
        };
        (after, Some(update))
    }
}

/// Whether a character ends a line of output.
pub open spec fn ends_line(c: char) -> bool {
    c == '\r' || c == '\n'
}

/// The reader after one character, with what a line that ended says.
#[verifier::opaque]
pub open spec fn read_char(r: ReaderView, c: char) -> (ReaderView, Seq<UpdateView>) {
    if ends_line(c) {
        let (after, update) = read_line(ReaderView { line: Seq::empty(), ..r }, r.line);
        (
            after,
            match update {
                Some(u) => seq![u],
                None => Seq::empty(),
            },
        )
    } else {
        (ReaderView { line: r.line.push(c), ..r }, Seq::empty())
    }
}

/// The reader after a text, with what its lines say.
pub open spec fn read_text(r: ReaderView, text: Seq<char>) -> (ReaderView, Seq<UpdateView>)
    decreases text.len(),
{
    if text.len() == 0 {
        (r, Seq::empty())
    } else {
        let (mid, updates) = read_text(r, text.drop_last());
        let (after, more) = read_char(mid, text.last());
        (after, updates + more)
    }
}

/// How the output is cut into pieces does not matter: reading a text in two
/// parts says the same as reading it at once.
pub proof fn pieces_read_alike(r: ReaderView, a: Seq<char>, b: Seq<char>)
    ensures
        ({
            let (mid, first) = read_text(r, a);
            let (after, second) = read_text(mid, b);
            read_text(r, a + b) == (after, first + second)
        }),
    decreases b.len(),
{
    let (mid, first) = read_text(r, a);
    if b.len() == 0 {
        assert(a + b =~= a);
        assert(first + Seq::<UpdateView>::empty() =~= first);
    } else {
        pieces_read_alike(r, a, b.drop_last());
        assert((a + b).drop_last() =~= a + b.drop_last());
        assert((a + b).last() == b.last());
        let (m2, s2) = read_text(mid, b.drop_last());
        let (m3, s3) = read_char(m2, b.last());
        assert((first + s2) + s3 =~= first + (s2 + s3));
    }
}

/// The files that are done never become fewer while the output is read, and at
/// most one is added per character.
proof fn lemma_files_done(r: ReaderView, text: Seq<char>)
    ensures
        r.files_done <= read_text(r, text).0.files_done <= r.files_done + text.len(),
        read_text(r, text).0.format == r.format,
        read_text(r, text).0.files_total == r.files_total,
    decreases text.len(),
{
    reveal(read_char);
    if text.len() > 0 {
        lemma_files_done(r, text.drop_last());
    }
}

/// Where a run of the program stands.
#[derive(Debug)]
pub enum ArchivePhase {
    /// Its output is to be read, for a fifth of a second at most.
    Reading,
    /// Its end is to be awaited.
    Waiting,
    /// It failed with the given status; what it printed elsewhere is to be
    /// read.
    ReadingMessage(String),
    /// The run was cancelled: remove what was written, and first end the
    /// program if it is still running.
    Cancelled(bool),
    /// The archive is there.
    Created,
    /// The run failed.
    Failed(String),
}

/// Where a run stands, in mathematical terms.
pub enum PhaseView {
    Reading,
    Waiting,
    ReadingMessage(Seq<char>),
    Cancelled(bool),
    Created,
    Failed(Seq<char>),
}

impl View for ArchivePhase {
    type V = PhaseView;

    open spec fn view(&self) -> PhaseView {
        match self {
            ArchivePhase::Reading => PhaseView::Reading,
            ArchivePhase::Waiting => PhaseView::Waiting,
            ArchivePhase::ReadingMessage(s) => PhaseView::ReadingMessage(s@),
            ArchivePhase::Cancelled(k) => PhaseView::Cancelled(*k),
            ArchivePhase::Created => PhaseView::Created,
            ArchivePhase::Failed(s) => PhaseView::Failed(s@),
        }
    }
}

/// What came of the work that a phase asked for.
#[derive(Debug)]
pub enum ArchiveEvent {
    /// Nothing was printed in time.
    TimedOut,
    /// Something was printed.
    Data(Vec<u8>),
    /// The output ended or could not be read.
    EndOfOutput,
    /// The program ended: with success or not, and its status as text.
    Exited(bool, String),
    /// The end of the program could not be awaited.
    WaitFailed(String),
    /// What the program printed elsewhere.
    Message(String),
}

/// Whether an event answers a phase.
pub open spec fn answers(p: PhaseView, e: ArchiveEvent) -> bool {
    match p {
        PhaseView::Reading => e is TimedOut || e is Data || e is EndOfOutput,
        PhaseView::Waiting => e is Exited || e is WaitFailed,
        PhaseView::ReadingMessage(_) => e is Message,
        _ => false,
    }
}

/// Where a run stands after an event.
pub open spec fn next_phase(
    p: PhaseView,
    e: ArchiveEvent,
    cancelled: bool,
    tool: Seq<char>,
) -> PhaseView {
    match e {
        ArchiveEvent::TimedOut | ArchiveEvent::Data(_) => if cancelled {
            PhaseView::Cancelled(true)
        } else {
            PhaseView::Reading
        },
        ArchiveEvent::EndOfOutput => if cancelled {
            PhaseView::Cancelled(true)
        } else {
            PhaseView::Waiting
        },
        ArchiveEvent::WaitFailed(m) => PhaseView::Failed("wait "@ + tool + ": "@ + m@),
        ArchiveEvent::Exited(success, status) => if success {
            PhaseView::Created
        } else if cancelled {
            PhaseView::Cancelled(false)
        } else {
            PhaseView::ReadingMessage(status@)
        },
        ArchiveEvent::Message(m) => if trimmed(m@).len() == 0 {
            PhaseView::Failed(tool + " exited with "@ + p->ReadingMessage_0)
        } else {
            PhaseView::Failed(m@)
        },
    }
}

/// A run of the program that creates an archive.
pub struct ArchiveRun {
    pub format: ArchiveFormat,
    pub files_total: u64,
    pub line: Vec<char>,
    pub files_done: u64,
    pub fraction: Fraction,
    pub phase: ArchivePhase,
}

impl ArchiveRun {
    /// What was read so far.
    pub open spec fn reader(&self) -> ReaderView {
        ReaderView {
            format: self.format,
            files_total: self.files_total as int,
            line: self.line@,
            files_done: self.files_done as int,
            fraction: self.fraction,
        }
    }

    /// A run whose program was just started.
    pub fn new(format: ArchiveFormat, files_total: u64, cancelled: bool) -> (r: Self)
        ensures
            r.reader() == (ReaderView {
                format,
                files_total: files_total as int,
                line: Seq::empty(),
                files_done: 0,
                fraction: Fraction { part: 0, whole: 1 },
            }),
            r.phase@ == if cancelled {
                PhaseView::Cancelled(true)
            } else {
                PhaseView::Reading
            },
    {
        ArchiveRun {
            format,
            files_total,
            line: Vec::new(),
            files_done: 0,
            fraction: Fraction { part: 0, whole: 1 },
            phase: if cancelled {
                ArchivePhase::Cancelled(true)
            } else {
                ArchivePhase::Reading
            },
        }
    }

    fn end_line(&mut self) -> (r: Option<ArchiveUpdate>)
        requires
            old(self).files_done < u64::MAX,
        ensures
            ({
                let (after, update) = read_line(
                    ReaderView { line: Seq::empty(), ..old(self).reader() },
                    old(self).line@,
                );
                &&& final(self).reader() == after
                &&& update == match r {
                    Some(u) => Some(u@),
                    None => None,
                }
            }),
            final(self).phase == old(self).phase,
    {
        let mut line: Vec<char> = Vec::new();
        core::mem::swap(&mut line, &mut self.line);
        let ghost base = self.reader();
        assert(base =~= (ReaderView { line: Seq::empty(), ..old(self).reader() }));
        let t = trim(&line);
        if t.len() == 0 {
            return None;
        }
        let mut current: String = String::new();
        let mut advanced: bool = false;
        if self.format == ArchiveFormat::TarGz {
            self.files_done = self.files_done + 1;
            current = string_of(t);
            if self.files_total > 0 {
                let part: u64 = if self.files_done <= self.files_total {
                    self.files_done
                } else {
                    self.files_total
                };
                self.fraction = Fraction { part, whole: self.files_total };
            }
            advanced = true;
        } else {
            if let Some(name) = detect_7z_file(t) {
                self.files_done = self.files_done + 1;
                current = name;
                advanced = true;
            }
            if let Some(p) = parse_percent(t) {
                self.fraction = Fraction { part: p, whole: 100 };
                advanced = true;
                proof {
                    lemma_first_percent(t@, p);
                }
            }
        }
        if !advanced {
            return None;
        }
        let files_done: Option<u64> = if self.files_done > 0 {
            if self.files_done <= self.files_total {
                Some(self.files_done)
            } else {
                Some(self.files_total)
            }
        } else {
            None
        };
        assert(current@ =~= match packed_file(t@) {
            Some(n) => n,
            None => Seq::empty(),
        } || self.format == ArchiveFormat::TarGz);
        Some(ArchiveUpdate { current, files_done, fraction: self.fraction })
    }

    /// Reads a piece of output. Returns what its lines say.
    pub fn read(&mut self, text: &str) -> (r: Vec<ArchiveUpdate>)
        requires
            old(self).files_done + text@.len() < u64::MAX,
        ensures
            (final(self).reader(), update_views(r@)) == read_text(old(self).reader(), text@),
            final(self).phase == old(self).phase,
    {
        let v = chars_of(text);
        let mut out: Vec<ArchiveUpdate> = Vec::new();
        let ghost start = self.reader();
        let mut i: usize = 0;
        assert(text@.take(0) =~= Seq::empty());
        assert(update_views(out@) =~= Seq::empty());
        while i < v.len()
            invariant
                i <= v@.len(),
                v@ == text@,
                start == old(self).reader(),
                start.files_done + text@.len() < u64::MAX,
                (self.reader(), update_views(out@)) == read_text(start, text@.take(i as int)),
                self.phase == old(self).phase,
            decreases v@.len() - i,
        {
            let c: char = v[i];
            proof {
                reveal(read_char);
                lemma_files_done(start, text@.take(i as int));
                assert(text@.take(i + 1).drop_last() =~= text@.take(i as int));
                assert(text@.take(i + 1).last() == c);
            }
            let ghost before = self.reader();
            let ghost said = update_views(out@);
            if c == '\r' || c == '\n' {
                match self.end_line() {
                    Some(u) => {
                        let ghost outs = out@;
                        out.push(u);
                        assert(update_views(out@) =~= update_views(outs).push(u@));
                        assert(update_views(out@) =~= said + seq![u@]);
                    },
                    None => {
                        assert(update_views(out@) =~= said + Seq::empty());
                    },
                }
            } else {
                self.line.push(c);
                assert(self.reader() =~= (ReaderView { line: before.line.push(c), ..before }));
                assert(update_views(out@) =~= said + Seq::empty());
            }
            i += 1;
        }
        assert(text@.take(i as int) =~= text@);
        out
    }

    /// Takes the result of the work that the phase asked for, and whether the
    /// run is cancelled by now. Returns what new output says.
    pub fn step(&mut self, e: ArchiveEvent, cancelled: bool) -> (r: Vec<ArchiveUpdate>)
        requires
            answers(old(self).phase@, e),
            e matches ArchiveEvent::Data(bytes) ==> old(self).files_done + lossy(bytes@).len()
                < u64::MAX,
        ensures
            final(self).phase@ == next_phase(
                old(self).phase@,
                e,
                cancelled,
                format_tool(old(self).format),
            ),
            match e {
                ArchiveEvent::Data(bytes) => (final(self).reader(), update_views(r@)) == read_text(
                    old(self).reader(),
                    lossy(bytes@),
                ),
                _ => final(self).reader() == old(self).reader() && r@.len() == 0,
            },
    {
        let mut updates: Vec<ArchiveUpdate> = Vec::new();
        match e {
            ArchiveEvent::TimedOut => {
                if cancelled {
                    self.phase = ArchivePhase::Cancelled(true);
                }
            },
            ArchiveEvent::Data(bytes) => {
                let text = lossy_text(&bytes);
                updates = self.read(text.as_str());
                if cancelled {
                    self.phase = ArchivePhase::Cancelled(true);
                }
            },
            ArchiveEvent::EndOfOutput => {
                self.phase = if cancelled {
                    ArchivePhase::Cancelled(true)
                } else {
                    ArchivePhase::Waiting
                };
            },
            ArchiveEvent::WaitFailed(m) => {
                let mut s: String = "wait ".to_owned();
                s.append(self.format.tool());
                s.append(": ");
                s.append(m.as_str());
                self.phase = ArchivePhase::Failed(s);
            },
            ArchiveEvent::Exited(success, status) => {
                self.phase = if success {
                    ArchivePhase::Created
                } else if cancelled {
                    ArchivePhase::Cancelled(false)
                } else {
                    ArchivePhase::ReadingMessage(status)
                };
            },
            ArchiveEvent::Message(m) => {
                if trim_text(m.as_str()).as_str().is_empty() {
                    let status: String = match &self.phase {
                        ArchivePhase::ReadingMessage(s) => s.clone(),
                        _ => String::new(),
                    };
                    let mut s: String = self.format.tool().to_owned();
                    s.append(" exited with ");
                    s.append(status.as_str());
                    self.phase = ArchivePhase::Failed(s);
                } else {
                    self.phase = ArchivePhase::Failed(m);
                }
            },
        }
        updates
    }

    /// Does as [`ArchiveRun::step`], unless new output could bring the count of
    /// files past its limit: then nothing is done.
    pub fn checked_step(&mut self, e: ArchiveEvent, cancelled: bool) -> (r: Option<
        Vec<ArchiveUpdate>,
    >)
        requires
            answers(old(self).phase@, e),
        ensures
            r is None <==> (e matches ArchiveEvent::Data(bytes) && old(self).files_done + lossy(
                bytes@,
            ).len() >= u64::MAX),
            r is None ==> *final(self) == *old(self),
            r matches Some(updates) ==> {
                &&& final(self).phase@ == next_phase(
                    old(self).phase@,
                    e,
                    cancelled,
                    format_tool(old(self).format),
                )
                &&& match e {
                    ArchiveEvent::Data(bytes) => (final(self).reader(), update_views(updates@))
                        == read_text(old(self).reader(), lossy(bytes@)),
                    _ => final(self).reader() == old(self).reader() && updates@.len() == 0,
                }
            },
    {
        if let ArchiveEvent::Data(bytes) = &e {
            let n: usize = chars_of(lossy_text(bytes).as_str()).len();
            if n as u64 >= u64::MAX - self.files_done {
                return None;
            }
        }
        Some(self.step(e, cancelled))
    }
}

proof fn lemma_first_percent(line: Seq<char>, p: u64)
    requires
        exists|i: int|
            #[trigger] percent_at(line, i) && (forall|k: int|
                0 <= k < i ==> !#[trigger] percent_at(line, k)) && p == least(
                value_of(digits_before(line, i)),
                100,
            ),
    ensures
        line_percent(line) == Some(p),
{
    let i = choose|i: int|
        #[trigger] percent_at(line, i) && (forall|k: int|
            0 <= k < i ==> !#[trigger] percent_at(line, k)) && p == least(
            value_of(digits_before(line, i)),
            100,
        );
    let j = choose|i: int|
        #[trigger] percent_at(line, i) && (forall|k: int|
            0 <= k < i ==> !#[trigger] percent_at(line, k));
    assert(percent_at(line, i));
    assert(percent_at(line, j));
    assert(i == j);
}

/// Why the program could not be started.
pub fn spawn_error(format: ArchiveFormat, not_found: bool, reason: &str) -> (r: String)
    ensures
        r@ == if not_found {
            "`"@ + format_tool(format) + "` is not installed"@
        } else {
            "spawn "@ + format_tool(format) + ": "@ + reason@
        },
{
    if not_found {
        let mut s: String = "`".to_owned();
        s.append(format.tool());
        s.append("` is not installed");
        s
    } else {
        let mut s: String = "spawn ".to_owned();
        s.append(format.tool());
        s.append(": ");
        s.append(reason);
        s
    }
}

// ---------------------------------------------------------------------------
// Showing progress
// ---------------------------------------------------------------------------

/// A number as two signed halves of 32 bits, the low one first.
pub fn pack_u64(v: u64) -> (r: (i32, i32))
    ensures
        r.0 == wrap_i32(v as int % 0x1_0000_0000),
        r.1 == wrap_i32(v as int / 0x1_0000_0000),
{
    (signed_half((v % 0x1_0000_0000) as u32), signed_half((v / 0x1_0000_0000) as u32))
}

fn signed_half(h: u32) -> (r: i32)
    ensures
        r == wrap_i32(h as int),
{
    if h < 0x8000_0000 {
        h as i32
    } else {
        (h as i64 - 0x1_0000_0000) as i32
    }
}

/// The halves of a number give it back.
pub proof fn halves_give_the_number(v: u64)
    ensures
        wrap_i32(v as int % 0x1_0000_0000) % 0x1_0000_0000 + 0x1_0000_0000 * (wrap_i32(
            v as int / 0x1_0000_0000,
        ) % 0x1_0000_0000) == v,
{
    lemma_half(v as int % 0x1_0000_0000);
    lemma_half(v as int / 0x1_0000_0000);
}

proof fn lemma_half(h: int)
    requires
        0 <= h < 0x1_0000_0000,
    ensures
        wrap_i32(h) % 0x1_0000_0000 == h,
{
}

/// How many bytes are done of how many, once the total is known.
pub fn bytes_text(done: u64, total: u64, of: &str) -> (r: String)
    ensures
        r@ == if total > 0 {
            size_text(done as nat) + " "@ + of@ + " "@ + size_text(total as nat)
        } else {
            Seq::<char>::empty()
        },
{
    if total == 0 {
        return String::new();
    }
    let mut s = human_size(done);
    s.append(" ");
    s.append(of);
    s.append(" ");
    s.append(human_size(total).as_str());
    s
}

} // verus!
