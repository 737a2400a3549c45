//! A run that copies or moves entries into a directory.
//!
//! [`CopyRun`] decides and an executor acts: the run's [`Phase`] says which
//! piece of outside work is due, the executor performs it and hands the result
//! back as an [`Event`] to [`CopyRun::step`], until the phase is
//! [`Phase::Finished`].
use crate::copy_progress::{
    CancelFlag, Conflict, CopyError, CopyOutcome, EntryKind, Op, Progress, Totals,
};
use crate::file_ops::{candidate_path, nth_candidate_path, MAX_CANDIDATES};
use crate::unix_path::{file_name, joined, lossy, lossy_text, parent, UnixPath};
use vstd::prelude::*;
use vstd::string::*;
use vstd::utf8::*;

verus! {

/// The outside work that a run waits for. `source` and `dest` are the paths
/// that the run names.
#[derive(Clone, Copy, Debug, PartialEq, Eq, Structural)]
pub enum Phase {
    /// Wait while paused and not cancelled.
    Poll,
    /// Examine the source, links not followed.
    StatSource,
    /// Examine the destination, links not followed.
    StatDest,
    /// Ask how to resolve the existing destination.
    Ask,
    /// Find out whether the run's candidate path is occupied.
    Probe,
    /// Remove the existing destination with all below it.
    RemoveDest,
    /// Recreate the link `source` as `dest`.
    CopyLink,
    /// Make the directory `dest` and what is missing above it.
    MakeDir,
    /// Start listing the directory `source`.
    OpenDir,
    /// Name the next child of the directory last opened and not exhausted.
    NextChild,
    /// Open `source` for reading and create `dest`, which must not exist.
    OpenFile,
    /// Wait while paused and not cancelled, between two chunks.
    PollChunk,
    /// Copy the next chunk of the open file.
    CopyChunk,
    /// Flush the open file and give `dest` the mode of `source`.
    CloseFile,
    /// Close the open file and remove what was written.
    DropFile,
    /// Publish the progress at the end of a file.
    ReportFile,
    /// Publish the progress, throttled, after a chunk.
    ReportChunk,
    /// Rename `source` to `dest`.
    Rename,
    /// Examine what was renamed.
    StatMoved,
    /// Count the regular files and their bytes below what was renamed.
    CountMoved,
    /// Publish the progress, throttled, after a rename.
    ReportMoved,
    /// Remove the top-level source with all below it.
    RemoveSource,
    /// Publish the final progress.
    ReportFinal,
    /// Nothing is left to do.
    Finished,
}

/// What came of the work that a phase asked for.
#[derive(Debug)]
pub enum Event {
    Ready,
    Meta(EntryKind, u64),
    Decision(Conflict),
    Occupied(bool),
    Done,
    Failed(String),
    Child(Vec<u8>),
    ChildFailed(String),
    NoMoreChildren,
    /// How many bytes were copied; none at the end of the file.
    Chunk(u64),
    /// Source and destination lie on different file systems.
    CrossDevice,
    /// How many files and bytes a renamed directory holds.
    Counted(u64, u64),
}

/// Whether an event answers a phase.
pub open spec fn fits(p: Phase, e: Event) -> bool {
    match p {
        Phase::Poll | Phase::PollChunk => e is Ready,
        Phase::StatSource | Phase::StatDest | Phase::StatMoved => e is Meta || e is Failed,
        Phase::Ask => e is Decision,
        Phase::Probe => e is Occupied,
        Phase::RemoveDest
        | Phase::CopyLink
        | Phase::MakeDir
        | Phase::OpenDir
        | Phase::OpenFile
        | Phase::CloseFile
        | Phase::RemoveSource => e is Done || e is Failed,
        Phase::NextChild => e is Child || e is ChildFailed || e is NoMoreChildren,
        Phase::CopyChunk => e is Chunk || e is Failed,
        Phase::Rename => e is Done || e is CrossDevice || e is Failed,
        Phase::CountMoved => e is Counted || e is Failed,
        Phase::DropFile
        | Phase::ReportFile
        | Phase::ReportChunk
        | Phase::ReportMoved
        | Phase::ReportFinal => e is Done,
        Phase::Finished => false,
    }
}

/// A run in mathematical terms.
#[verifier::ext_equal]
pub struct RunView {
    pub op: Op,
    pub srcs: Seq<Seq<u8>>,
    pub dest_dir: Seq<u8>,
    /// How many of the sources were begun or passed over.
    pub next: int,
    pub cancelled: bool,
    /// Whether the run left sources out because it was cancelled.
    pub stopped: bool,
    pub files_done: int,
    pub bytes_done: int,
    pub skipped: int,
    pub errors: Seq<(Seq<u8>, Seq<char>)>,
    pub dests: Seq<(Seq<u8>, Seq<u8>)>,
    pub phase: Phase,
    /// Whether the entry at hand is being copied or moved.
    pub stage: Op,
    pub src: Seq<u8>,
    pub dest: Seq<u8>,
    pub kind: EntryKind,
    /// Which candidate name is being probed.
    pub probe: nat,
    /// Where a move that goes by copying leads.
    pub target: Seq<u8>,
    /// How many errors there were when the source at hand began.
    pub errors_begun: int,
    /// Whether the source at hand is moved by copying.
    pub by_copying: bool,
    /// Whether something below the source at hand was passed over at the user's
    /// request.
    pub passed: bool,
    /// Whether something of the source at hand was left out because the run was
    /// cancelled.
    pub cut: bool,
    /// Source and destination of the directories that are open.
    pub frames: Seq<(Seq<u8>, Seq<u8>)>,
}

/// How an entry came out.
pub enum EntryEnd {
    Written,
    /// Passed over at the user's request.
    Skipped,
    /// Left out because the run was cancelled.
    Cut,
    Failed(Seq<char>),
}

/// How an input or output failure reads in the list of errors.
pub open spec fn io_text(m: Seq<char>) -> Seq<char> {
    "io: "@ + m
}

/// The top-level source at hand.
pub open spec fn origin(s: RunView) -> Seq<u8> {
    s.srcs[s.next - 1]
}

/// Goes on with the next source that has a name. A cancelled run stops here.
pub open spec fn begin(s: RunView) -> RunView
    decreases s.srcs.len() - s.next,
{
    if s.next >= s.srcs.len() {
        RunView { phase: Phase::ReportFinal, ..s }
    } else if s.cancelled {
        RunView { phase: Phase::ReportFinal, stopped: true, ..s }
    } else {
        match file_name(s.srcs[s.next]) {
            None => begin(RunView { next: s.next + 1, ..s }),
            Some(n) => RunView {
                next: s.next + 1,
                phase: Phase::Poll,
                stage: s.op,
                src: s.srcs[s.next],
                dest: joined(s.dest_dir, n),
                target: joined(s.dest_dir, n),
                errors_begun: s.errors.len() as int,
                by_copying: false,
                passed: false,
                cut: false,
                frames: Seq::empty(),
                ..s
            },
        }
    }
}

/// Records the failure of a top-level source.
pub open spec fn fail_top(s: RunView, m: Seq<char>) -> RunView {
    begin(RunView { errors: s.errors.push((origin(s), io_text(m))), ..s })
}

/// Records the success of a top-level source.
pub open spec fn succeed_top(s: RunView, dest: Seq<u8>) -> RunView {
    begin(RunView { dests: s.dests.push((origin(s), dest)), ..s })
}

/// Leaves an entry: back to the directory it is in, or to the end of its
/// top-level source. A source succeeds only if no error was added since it began
/// and nothing was left out because the run was cancelled. A source whose move
/// went by copying is then removed, unless something below it was passed over
/// or the run is cancelled.
pub open spec fn finish(s: RunView, r: EntryEnd) -> RunView {
    if s.frames.len() > 0 {
        let errors = match r {
            EntryEnd::Failed(m) => s.errors.push((s.src, io_text(m))),
            _ => s.errors,
        };
        RunView {
            errors,
            passed: s.passed || r is Skipped,
            cut: s.cut || r is Cut,
            src: s.frames.last().0,
            dest: s.frames.last().1,
            phase: Phase::NextChild,
            ..s
        }
    } else {
        match r {
            EntryEnd::Failed(m) => fail_top(s, m),
            EntryEnd::Skipped | EntryEnd::Cut => begin(s),
            EntryEnd::Written => if s.cut || s.errors.len() != s.errors_begun {
                begin(s)
            } else if !s.by_copying {
                succeed_top(s, s.dest)
            } else if s.passed || s.cancelled {
                begin(s)
            } else {
                RunView { phase: Phase::RemoveSource, ..s }
            },
        }
    }
}

/// Leaves the innermost open directory.
pub open spec fn leave_dir(s: RunView) -> RunView {
    finish(
        RunView {
            src: s.frames.last().0,
            dest: s.frames.last().1,
            frames: s.frames.drop_last(),
            ..s
        },
        EntryEnd::Written,
    )
}

/// Writes the entry at its resolved destination.
pub open spec fn proceed(s: RunView) -> RunView {
    let phase = match s.stage {
        Op::Move => Phase::Rename,
        Op::Copy => match s.kind {
            EntryKind::Link => Phase::CopyLink,
            EntryKind::Directory => Phase::MakeDir,
            EntryKind::Other => Phase::OpenFile,
        },
    };
    RunView { phase, ..s }
}

/// Lets a move go by copying; the source is removed afterwards.
pub open spec fn move_by_copying(s: RunView) -> RunView {
    RunView {
        phase: Phase::Poll,
        stage: Op::Copy,
        target: s.dest,
        by_copying: true,
        ..s
    }
}

/// The directory in which a free name beside `dest` is looked for.
pub open spec fn beside_dir(dest: Seq<u8>) -> Seq<u8> {
    match parent(dest) {
        Some(d) => d,
        None => encode_utf8("."@),
    }
}

/// The name that a free name beside `dest` is made from.
pub open spec fn beside_name(dest: Seq<u8>) -> Seq<char> {
    match file_name(dest) {
        Some(n) => lossy(n),
        None => Seq::empty(),
    }
}

/// The `n`-th path to try beside `dest`.
pub open spec fn beside(dest: Seq<u8>, n: nat) -> Seq<u8> {
    candidate_path(beside_dir(dest), beside_name(dest), n)
}

/// Passes an entry over at the user's request. Top-level sources are counted.
pub open spec fn passed_over(s: RunView) -> RunView {
    RunView {
        skipped: s.skipped + if s.frames.len() == 0 {
            1int
        } else {
            0
        },
        ..s
    }
}

/// The run after an event.
pub open spec fn after(s: RunView, e: Event) -> RunView {
    match (s.phase, e) {
        (Phase::Poll, _) => if s.cancelled {
            finish(s, EntryEnd::Cut)
        } else {
            RunView { phase: Phase::StatSource, ..s }
        },
        // A move goes on even where its source cannot be examined.
        (Phase::StatSource, Event::Meta(kind, _)) => RunView { phase: Phase::StatDest, kind, ..s },
        (Phase::StatSource, Event::Failed(m)) => match s.stage {
            Op::Copy => finish(s, EntryEnd::Failed(m@)),
            Op::Move => RunView { phase: Phase::StatDest, kind: EntryKind::Other, ..s },
        },
        // A directory goes into an existing directory without asking.
        (Phase::StatDest, Event::Meta(kind, _)) => if kind == EntryKind::Directory && s.kind
            == EntryKind::Directory {
            match s.stage {
                Op::Copy => proceed(s),
                Op::Move => move_by_copying(s),
            }
        } else {
            RunView { phase: Phase::Ask, ..s }
        },
        (Phase::StatDest, _) => proceed(s),
        (Phase::Ask, Event::Decision(Conflict::Skip)) => finish(
            passed_over(s),
            EntryEnd::Skipped,
        ),
        (Phase::Ask, Event::Decision(Conflict::Cancel)) => finish(
            RunView { cancelled: true, ..s },
            EntryEnd::Cut,
        ),
        (Phase::Ask, Event::Decision(Conflict::KeepBoth)) => RunView {
            phase: Phase::Probe,
            probe: 0,
            ..s
        },
        (Phase::Ask, _) => RunView { phase: Phase::RemoveDest, ..s },
        (Phase::Probe, Event::Occupied(taken)) => if !taken {
            proceed(RunView { dest: beside(s.dest, s.probe), ..s })
        } else if s.probe + 1 < MAX_CANDIDATES {
            RunView { probe: s.probe + 1, ..s }
        } else {
            proceed(RunView { dest: beside(s.dest, 0), ..s })
        },
        (Phase::RemoveDest, Event::Done) => proceed(s),
        (Phase::CopyLink, Event::Done) => RunView {
            phase: Phase::ReportFile,
            files_done: s.files_done + 1,
            ..s
        },
        (Phase::MakeDir, Event::Done) => RunView { phase: Phase::OpenDir, ..s },
        (Phase::OpenDir, Event::Done) => RunView {
            phase: Phase::NextChild,
            frames: s.frames.push((s.src, s.dest)),
            ..s
        },
        (Phase::NextChild, Event::NoMoreChildren) => leave_dir(s),
        (Phase::NextChild, Event::ChildFailed(m)) => RunView {
            errors: s.errors.push((s.frames.last().0, m@)),
            ..s
        },
        (Phase::NextChild, Event::Child(name)) => if s.cancelled {
            leave_dir(RunView { cut: true, ..s })
        } else {
            RunView {
                phase: Phase::Poll,
                src: joined(s.frames.last().0, name@),
                dest: joined(s.frames.last().1, name@),
                ..s
            }
        },
        (Phase::OpenFile, Event::Done) => RunView { phase: Phase::PollChunk, ..s },
        (Phase::PollChunk, _) => if s.cancelled {
            RunView { phase: Phase::DropFile, ..s }
        } else {
            RunView { phase: Phase::CopyChunk, ..s }
        },
        (Phase::CopyChunk, Event::Chunk(n)) => if n == 0 {
            RunView { phase: Phase::CloseFile, ..s }
        } else {
            RunView { phase: Phase::ReportChunk, bytes_done: s.bytes_done + n, ..s }
        },
        (Phase::ReportChunk, _) => RunView { phase: Phase::PollChunk, ..s },
        (Phase::CloseFile, Event::Done) => RunView {
            phase: Phase::ReportFile,
            files_done: s.files_done + 1,
            ..s
        },
        (Phase::DropFile, _) => finish(s, EntryEnd::Cut),
        (Phase::ReportFile, _) | (Phase::ReportMoved, _) => finish(s, EntryEnd::Written),
        (Phase::Rename, Event::Done) => RunView { phase: Phase::StatMoved, ..s },
        (Phase::Rename, Event::CrossDevice) => move_by_copying(s),
        (Phase::StatMoved, Event::Meta(kind, len)) => if kind == EntryKind::Directory {
            RunView { phase: Phase::CountMoved, ..s }
        } else {
            RunView {
                phase: Phase::ReportMoved,
                files_done: s.files_done + 1,
                bytes_done: s.bytes_done + len,
                ..s
            }
        },
        (Phase::CountMoved, Event::Counted(files, bytes)) => RunView {
            phase: Phase::ReportMoved,
            files_done: s.files_done + files,
            bytes_done: s.bytes_done + bytes,
            ..s
        },
        (Phase::CountMoved, _) => RunView { phase: Phase::ReportMoved, ..s },
        (Phase::RemoveSource, Event::Done) => succeed_top(s, s.target),
        (Phase::RemoveSource, Event::Failed(m)) => fail_top(s, m@),
        (Phase::ReportFinal, _) => RunView { phase: Phase::Finished, ..s },
        (_, Event::Failed(m)) => finish(s, EntryEnd::Failed(m@)),
        _ => s,
    }
}

/// Whether the counters can take what an event adds.
pub open spec fn has_room(s: RunView, e: Event) -> bool {
    &&& s.files_done < u64::MAX
    &&& s.skipped < u64::MAX
    &&& e matches Event::Chunk(n) ==> s.bytes_done + n <= u64::MAX
    &&& e matches Event::Meta(_, n) ==> s.phase == Phase::StatMoved ==> s.bytes_done + n <= u64::MAX
    &&& e matches Event::Counted(f, b) ==> s.files_done + f <= u64::MAX && s.bytes_done + b
        <= u64::MAX
}

/// What every state of a run satisfies.
pub open spec fn consistent(s: RunView) -> bool {
    &&& 0 <= s.next <= s.srcs.len()
    &&& s.probe < MAX_CANDIDATES
    &&& s.phase != Phase::ReportFinal && s.phase != Phase::Finished ==> s.next >= 1
    &&& s.phase == Phase::NextChild ==> s.frames.len() > 0 && s.stage == Op::Copy
    &&& s.phase == Phase::RemoveSource ==> s.by_copying && s.errors.len() == s.errors_begun
        && !s.passed && !s.cut && s.frames.len() == 0
    &&& s.phase != Phase::ReportFinal && s.phase != Phase::Finished && s.stage == Op::Move
        ==> s.op == Op::Move && s.frames.len() == 0 && !s.by_copying && s.errors.len()
        == s.errors_begun && !s.passed && !s.cut
    &&& s.by_copying ==> s.op == Op::Move
    &&& 0 <= s.errors_begun <= s.errors.len()
    &&& s.phase == Phase::Rename || s.phase == Phase::StatMoved || s.phase == Phase::CountMoved
        || s.phase == Phase::ReportMoved ==> s.stage == Op::Move
    &&& s.phase == Phase::CopyLink || s.phase == Phase::MakeDir || s.phase == Phase::OpenDir
        || s.phase == Phase::OpenFile || s.phase == Phase::PollChunk || s.phase == Phase::CopyChunk
        || s.phase == Phase::CloseFile || s.phase == Phase::DropFile || s.phase == Phase::ReportFile
        || s.phase == Phase::ReportChunk || s.phase == Phase::RemoveSource ==> s.stage == Op::Copy
    &&& forall|i: int|
        0 <= i < s.dests.len() ==> s.srcs.take(s.next).contains((#[trigger] s.dests[i]).0)
}

/// A run before its first source.
pub open spec fn initial(srcs: Seq<Seq<u8>>, dest_dir: Seq<u8>, op: Op, cancelled: bool) -> RunView {
    RunView {
        op,
        srcs,
        dest_dir,
        next: 0,
        cancelled,
        stopped: false,
        files_done: 0,
        bytes_done: 0,
        skipped: 0,
        errors: Seq::empty(),
        dests: Seq::empty(),
        phase: Phase::Poll,
        stage: op,
        src: Seq::empty(),
        dest: Seq::empty(),
        kind: EntryKind::Other,
        probe: 0,
        target: Seq::empty(),
        errors_begun: 0,
        by_copying: false,
        passed: false,
        cut: false,
        frames: Seq::empty(),
    }
}

/// A run that has noticed whether it was cancelled.
pub open spec fn noticed(s: RunView, cancelled: bool) -> RunView {
    RunView { cancelled: s.cancelled || cancelled, ..s }
}

pub(crate) proof fn lemma_begin(s: RunView)
    requires
        0 <= s.next <= s.srcs.len(),
        s.probe < MAX_CANDIDATES,
        s.by_copying ==> s.op == Op::Move,
        0 <= s.errors_begun <= s.errors.len(),
        forall|i: int|
            0 <= i < s.dests.len() ==> s.srcs.take(s.next).contains((#[trigger] s.dests[i]).0),
    ensures
        consistent(begin(s)),
        begin(s).errors == s.errors,
        begin(s).dests == s.dests,
        begin(s).cancelled == s.cancelled,
        begin(s).files_done == s.files_done,
        begin(s).bytes_done == s.bytes_done,
        begin(s).skipped == s.skipped,
        begin(s).next >= s.next,
        begin(s).op == s.op,
        begin(s).srcs == s.srcs,
        begin(s).phase == Phase::Poll || begin(s).phase == Phase::ReportFinal,
        begin(s).phase == Phase::Poll ==> !s.cancelled && begin(s).next > s.next,
    decreases s.srcs.len() - s.next,
{
    if s.next < s.srcs.len() && !s.cancelled {
        let t = RunView { next: s.next + 1, ..s };
        assert forall|i: int| 0 <= i < s.dests.len() implies t.srcs.take(t.next).contains(
            (#[trigger] s.dests[i]).0,
        ) by {
            let k = choose|k: int|
                0 <= k < s.srcs.take(s.next).len() && s.srcs.take(s.next)[k] == s.dests[i].0;
            assert(t.srcs.take(t.next)[k] == s.dests[i].0);
        }
        if file_name(s.srcs[s.next]) is None {
            lemma_begin(t);
        }
    }
}

proof fn lemma_finish(s: RunView, r: EntryEnd)
    requires
        consistent(s),
        s.phase != Phase::ReportFinal && s.phase != Phase::Finished,
        s.phase != Phase::RemoveSource,
        s.frames.len() > 0 ==> s.stage == Op::Copy,
    ensures
        consistent(finish(s, r)),
{
    let failed = RunView { errors: s.errors.push((origin(s), io_text(r->Failed_0))), ..s };
    let written = RunView { dests: s.dests.push((origin(s), s.dest)), ..s };
    assert forall|i: int| 0 <= i < written.dests.len() implies s.srcs.take(s.next).contains(
        (#[trigger] written.dests[i]).0,
    ) by {
        if i < s.dests.len() {
            assert(written.dests[i] == s.dests[i]);
        } else {
            assert(s.srcs.take(s.next)[s.next - 1] == origin(s));
        }
    }
    if s.frames.len() == 0 {
        lemma_begin(s);
        lemma_begin(failed);
        lemma_begin(written);
    }
}

proof fn lemma_leave_consistent(s: RunView)
    requires
        consistent(s),
        s.phase == Phase::NextChild,
    ensures
        consistent(leave_dir(s)),
{
    let t = RunView {
        src: s.frames.last().0,
        dest: s.frames.last().1,
        frames: s.frames.drop_last(),
        ..s
    };
    let u = RunView { phase: Phase::OpenDir, ..t };
    assert(consistent(u));
    lemma_finish(u, EntryEnd::Written);
    assert(finish(t, EntryEnd::Written) =~= finish(u, EntryEnd::Written)) by {
        lemma_begin_ignores_phase(t, u);
        lemma_begin_ignores_phase(
            RunView { dests: t.dests.push((origin(t), t.dest)), ..t },
            RunView { dests: u.dests.push((origin(u), u.dest)), ..u },
        );
    }
}

pub(crate) proof fn lemma_after_consistent(s: RunView, e: Event)
    requires
        consistent(s),
        fits(s.phase, e),
    ensures
        consistent(after(s, e)),
{
    match s.phase {
        Phase::RemoveSource => {
            let failed = RunView { errors: s.errors.push((origin(s), io_text(e->Failed_0@))), ..s };
            let written = RunView { dests: s.dests.push((origin(s), s.target)), ..s };
            assert forall|i: int| 0 <= i < written.dests.len() implies s.srcs.take(s.next).contains(
                (#[trigger] written.dests[i]).0,
            ) by {
                if i < s.dests.len() {
                    assert(written.dests[i] == s.dests[i]);
                } else {
                    assert(s.srcs.take(s.next)[s.next - 1] == origin(s));
                }
            }
            lemma_begin(failed);
            lemma_begin(written);
        },
        Phase::Ask => {
            let t = passed_over(s);
            let u = RunView { cancelled: true, ..s };
            assert(consistent(t));
            assert(consistent(u));
            lemma_finish(t, EntryEnd::Skipped);
            lemma_finish(u, EntryEnd::Cut);
        },
        Phase::NextChild => {
            lemma_leave_consistent(s);
            lemma_leave_consistent(RunView { cut: true, ..s });
        },
        Phase::ReportFinal | Phase::Finished => {},
        _ => {
            lemma_finish(s, EntryEnd::Cut);
            lemma_finish(s, EntryEnd::Written);
            if e is Failed {
                lemma_finish(s, EntryEnd::Failed(e->Failed_0@));
            }
        },
    }
}

proof fn lemma_begin_ignores_phase(s: RunView, t: RunView)
    requires
        s == (RunView { phase: s.phase, ..t }),
    ensures
        begin(s) == begin(t),
    decreases s.srcs.len() - s.next,
{
    if s.next < s.srcs.len() && !s.cancelled && file_name(s.srcs[s.next]) is None {
        lemma_begin_ignores_phase(
            RunView { next: s.next + 1, ..s },
            RunView { next: t.next + 1, ..t },
        );
    }
}

/// A run in progress.
pub struct CopyRun {
    pub op: Op,
    pub srcs: Vec<UnixPath>,
    pub dest_dir: UnixPath,
    pub next: usize,
    pub cancel: CancelFlag,
    pub stopped: bool,
    pub totals: Totals,
    pub files_done: u64,
    pub bytes_done: u64,
    pub skipped: u64,
    pub errors: Vec<CopyError>,
    pub dests: Vec<(UnixPath, UnixPath)>,
    pub phase: Phase,
    pub stage: Op,
    pub src: UnixPath,
    pub dest: UnixPath,
    pub kind: EntryKind,
    pub probe: u32,
    pub target: UnixPath,
    pub errors_begun: usize,
    pub by_copying: bool,
    pub passed: bool,
    pub cut: bool,
    pub frames: Vec<(UnixPath, UnixPath)>,
}

/// The views of a list of paths.
pub open spec fn path_views(v: Seq<UnixPath>) -> Seq<Seq<u8>> {
    v.map_values(|p: UnixPath| p@)
}

/// The views of a list of pairs of paths.
pub open spec fn pair_views(v: Seq<(UnixPath, UnixPath)>) -> Seq<(Seq<u8>, Seq<u8>)> {
    v.map_values(|p: (UnixPath, UnixPath)| (p.0@, p.1@))
}

/// The views of a list of errors.
pub open spec fn error_views(v: Seq<CopyError>) -> Seq<(Seq<u8>, Seq<char>)> {
    v.map_values(|e: CopyError| (e.path@, e.message@))
}

impl View for CopyRun {
    type V = RunView;

    open spec fn view(&self) -> RunView {
        RunView {
            op: self.op,
            srcs: path_views(self.srcs@),
            dest_dir: self.dest_dir@,
            next: self.next as int,
            cancelled: self.cancel.cancelled,
            stopped: self.stopped,
            files_done: self.files_done as int,
            bytes_done: self.bytes_done as int,
            skipped: self.skipped as int,
            errors: error_views(self.errors@),
            dests: pair_views(self.dests@),
            phase: self.phase,
            stage: self.stage,
            src: self.src@,
            dest: self.dest@,
            kind: self.kind,
            probe: self.probe as nat,
            target: self.target@,
            errors_begun: self.errors_begun as int,
            by_copying: self.by_copying,
            passed: self.passed,
            cut: self.cut,
            frames: pair_views(self.frames@),
        }
    }
}

/// The text of an input or output failure in the list of errors.
fn io_message(m: &String) -> (r: String)
    ensures
        r@ == io_text(m@),
{
    let mut r: String = "io: ".to_owned();
    r.append(m.as_str());
    r
}

/// How an entry came out, with the message of a failure.
enum End {
    Written,
    Skipped,
    Cut,
    Failed(String),
}

spec fn end_view(e: End) -> EntryEnd {
    match e {
        End::Written => EntryEnd::Written,
        End::Skipped => EntryEnd::Skipped,
        End::Cut => EntryEnd::Cut,
        End::Failed(m) => EntryEnd::Failed(m@),
    }
}

impl CopyRun {
    fn begin(&mut self)
        requires
            old(self).next <= old(self).srcs@.len(),
        ensures
            final(self)@ == begin(old(self)@),
            final(self).totals == old(self).totals,
    {
        let ghost start = self@;
        while self.next < self.srcs.len() && !self.cancel.is_cancelled()
            invariant
                self.next <= self.srcs@.len(),
                start == old(self)@,
                begin(self@) == begin(start),
                self.totals == old(self).totals,
            decreases self.srcs@.len() - self.next,
        {
            let src = self.srcs[self.next].clone();
            match src.file_name() {
                None => {
                    let ghost before = self@;
                    self.next = self.next + 1;
                    assert(self@ =~= (RunView { next: before.next + 1, ..before }));
                },
                Some(n) => {
                    let ghost before = self@;
                    let dest = self.dest_dir.join_bytes(&n);
                    self.next = self.next + 1;
                    self.phase = Phase::Poll;
                    self.stage = self.op;
                    self.src = src;
                    self.target = dest.clone();
                    self.dest = dest;
                    self.errors_begun = self.errors.len();
                    self.by_copying = false;
                    self.passed = false;
                    self.cut = false;
                    self.frames = Vec::new();
                    assert(self@ =~= begin(before));
                    return;
                },
            }
        }
        let ghost before = self@;
        if self.next < self.srcs.len() {
            self.stopped = true;
        }
        self.phase = Phase::ReportFinal;
        assert(self@ =~= begin(before));
    }

    fn push_error(&mut self, path: UnixPath, message: String)
        ensures
            final(self)@ == (RunView {
                errors: old(self)@.errors.push((path@, message@)),
                ..old(self)@
            }),
            final(self).totals == old(self).totals,
    {
        self.errors.push(CopyError { path, message });
        assert(self@ =~= (RunView {
            errors: old(self)@.errors.push((path@, message@)),
            ..old(self)@
        }));
    }

    fn fail_top(&mut self, m: String)
        requires
            1 <= old(self).next <= old(self).srcs@.len(),
        ensures
            final(self)@ == fail_top(old(self)@, m@),
            final(self).totals == old(self).totals,
    {
        let path = self.srcs[self.next - 1].clone();
        self.push_error(path, io_message(&m));
        self.begin();
    }

    fn succeed_top(&mut self, dest: UnixPath)
        requires
            1 <= old(self).next <= old(self).srcs@.len(),
        ensures
            final(self)@ == succeed_top(old(self)@, dest@),
            final(self).totals == old(self).totals,
    {
        let path = self.srcs[self.next - 1].clone();
        self.dests.push((path, dest));
        assert(self@ =~= (RunView {
            dests: old(self)@.dests.push((origin(old(self)@), dest@)),
            ..old(self)@
        }));
        self.begin();
    }

    fn finish(&mut self, r: End)
        requires
            1 <= old(self).next <= old(self).srcs@.len(),
        ensures
            final(self)@ == finish(old(self)@, end_view(r)),
            final(self).totals == old(self).totals,
    {
        if self.frames.len() > 0 {
            match r {
                End::Failed(m) => {
                    let path = self.src.clone();
                    self.push_error(path, io_message(&m));
                },
                End::Skipped => {
                    self.passed = true;
                },
                End::Cut => {
                    self.cut = true;
                },
                End::Written => {},
            }
            let k: usize = self.frames.len() - 1;
            self.src = self.frames[k].0.clone();
            self.dest = self.frames[k].1.clone();
            self.phase = Phase::NextChild;
            assert(self@ =~= finish(old(self)@, end_view(r)));
            return;
        }
        match r {
            End::Failed(m) => {
                self.fail_top(m);
            },
            End::Skipped | End::Cut => {
                self.begin();
            },
            End::Written => {
                if self.cut || self.errors.len() != self.errors_begun {
                    self.begin();
                } else if !self.by_copying {
                    let dest = self.dest.clone();
                    self.succeed_top(dest);
                } else if self.passed || self.cancel.is_cancelled() {
                    self.begin();
                } else {
                    self.phase = Phase::RemoveSource;
                    assert(self@ =~= finish(old(self)@, end_view(r)));
                }
            },
        }
    }

    fn leave_dir(&mut self)
        requires
            1 <= old(self).next <= old(self).srcs@.len(),
            old(self).frames@.len() > 0,
        ensures
            final(self)@ == leave_dir(old(self)@),
            final(self).totals == old(self).totals,
    {
        let ghost s = self@;
        match self.frames.pop() {
            Some((src, dest)) => {
                self.src = src;
                self.dest = dest;
            },
            None => {},
        }
        assert(self@ =~= (RunView {
            src: s.frames.last().0,
            dest: s.frames.last().1,
            frames: s.frames.drop_last(),
            ..s
        }));
        self.finish(End::Written);
    }

    fn proceed(&mut self)
        ensures
            final(self)@ == proceed(old(self)@),
            final(self).totals == old(self).totals,
    {
        self.phase = match self.stage {
            Op::Move => Phase::Rename,
            Op::Copy => match self.kind {
                EntryKind::Link => Phase::CopyLink,
                EntryKind::Directory => Phase::MakeDir,
                EntryKind::Other => Phase::OpenFile,
            },
        };
        assert(self@ =~= proceed(old(self)@));
    }

    fn move_by_copying(&mut self)
        ensures
            final(self)@ == move_by_copying(old(self)@),
            final(self).totals == old(self).totals,
    {
        self.phase = Phase::Poll;
        self.stage = Op::Copy;
        self.target = self.dest.clone();
        self.by_copying = true;
        assert(self@ =~= move_by_copying(old(self)@));
    }

    /// The path that [`Phase::Probe`] asks about.
    pub fn candidate(&self) -> (r: UnixPath)
        ensures
            r@ == beside(self.dest@, self.probe as nat),
    {
        self.candidate_at(self.probe)
    }

    fn candidate_at(&self, n: u32) -> (r: UnixPath)
        ensures
            r@ == beside(self.dest@, n as nat),
    {
        let dir = match self.dest.parent() {
            Some(d) => d,
            None => UnixPath::new("."),
        };
        let name: String = match self.dest.file_name() {
            Some(n) => lossy_text(&n),
            None => String::new(),
        };
        nth_candidate_path(&dir, name.as_str(), n)
    }

    /// Prepares a run; nothing was done yet.
    pub fn new(srcs: Vec<UnixPath>, dest_dir: UnixPath, op: Op, totals: Totals, cancelled: bool) -> (r:
        Self)
        ensures
            consistent(r@),
            r@ == begin(initial(path_views(srcs@), dest_dir@, op, cancelled)),
            r.totals == totals,
    {
        let mut r = CopyRun {
            op,
            srcs,
            dest_dir,
            next: 0,
            cancel: CancelFlag { cancelled },
            stopped: false,
            totals,
            files_done: 0,
            bytes_done: 0,
            skipped: 0,
            errors: Vec::new(),
            dests: Vec::new(),
            phase: Phase::Poll,
            stage: op,
            src: UnixPath { bytes: Vec::new() },
            dest: UnixPath { bytes: Vec::new() },
            kind: EntryKind::Other,
            probe: 0,
            target: UnixPath { bytes: Vec::new() },
            errors_begun: 0,
            by_copying: false,
            passed: false,
            cut: false,
            frames: Vec::new(),
        };
        assert(r@ =~= initial(path_views(srcs@), dest_dir@, op, cancelled));
        proof {
            lemma_begin(r@);
        }
        r.begin();
        r
    }

    /// What comes of waiting and of examining the paths.
    fn on_examined(&mut self, e: Event)
        requires
            consistent(old(self)@),
            fits(old(self).phase, e),
            has_room(old(self)@, e),
            old(self).phase == Phase::Poll || old(self).phase == Phase::StatSource || old(self).phase == Phase::StatDest,
        ensures
            final(self)@ == after(old(self)@, e),
            final(self).totals == old(self).totals,
    {
        let ghost s = self@;
        match self.phase {
            Phase::Poll => {
                if self.cancel.is_cancelled() {
                    self.finish(End::Cut);
                } else {
                    self.phase = Phase::StatSource;
                }
            },
            Phase::StatSource => {
                match e {
                    Event::Meta(kind, _) => {
                        self.kind = kind;
                        self.phase = Phase::StatDest;
                    },
                    Event::Failed(m) => {
                        match self.stage {
                            Op::Copy => {
                                self.finish(End::Failed(m));
                            },
                            Op::Move => {
                                self.kind = EntryKind::Other;
                                self.phase = Phase::StatDest;
                            },
                        }
                    },
                    _ => {},
                }
            },
            Phase::StatDest => {
                match e {
                    Event::Meta(kind, _) => {
                        if kind == EntryKind::Directory && self.kind == EntryKind::Directory {
                            match self.stage {
                                Op::Copy => {
                                    self.proceed();
                                },
                                Op::Move => {
                                    self.move_by_copying();
                                },
                            }
                        } else {
                            self.phase = Phase::Ask;
                        }
                    },
                    _ => {
                        self.proceed();
                    },
                }
            },
            _ => {},
        }
        assert(self@ =~= after(s, e));
    }

    /// What comes of an existing destination.
    #[verifier::rlimit(100)]
    fn on_conflict(&mut self, e: Event)
        requires
            consistent(old(self)@),
            fits(old(self).phase, e),
            has_room(old(self)@, e),
            old(self).phase == Phase::Ask || old(self).phase == Phase::Probe || old(self).phase == Phase::RemoveDest,
        ensures
            final(self)@ == after(old(self)@, e),
            final(self).totals == old(self).totals,
    {
        let ghost s = self@;
        match self.phase {
            Phase::Ask => {
                match e {
                    Event::Decision(Conflict::Skip) => {
                        if self.frames.len() == 0 {
                            self.skipped = self.skipped + 1;
                        }
                        assert(self@ =~= passed_over(s));
                        self.finish(End::Skipped);
                    },
                    Event::Decision(Conflict::Cancel) => {
                        self.cancel.cancel();
                        assert(self@ =~= (RunView { cancelled: true, ..s }));
                        self.finish(End::Cut);
                    },
                    Event::Decision(Conflict::KeepBoth) => {
                        self.probe = 0;
                        self.phase = Phase::Probe;
                    },
                    _ => {
                        self.phase = Phase::RemoveDest;
                    },
                }
            },
            Phase::Probe => {
                match e {
                    Event::Occupied(taken) => {
                        if !taken {
                            self.dest = self.candidate_at(self.probe);
                            assert(self@ =~= (RunView { dest: beside(s.dest, s.probe), ..s }));
                            self.proceed();
                        } else if self.probe + 1 < MAX_CANDIDATES {
                            self.probe = self.probe + 1;
                        } else {
                            self.dest = self.candidate_at(0);
                            assert(self@ =~= (RunView { dest: beside(s.dest, 0), ..s }));
                            self.proceed();
                        }
                    },
                    _ => {},
                }
            },
            Phase::RemoveDest => {
                match e {
                    Event::Failed(m) => {
                        self.finish(End::Failed(m));
                    },
                    _ => {
                        self.proceed();
                    },
                }
            },
            _ => {},
        }
        assert(self@ =~= after(s, e));
    }

    /// What comes of links and directories.
    fn on_tree(&mut self, e: Event)
        requires
            consistent(old(self)@),
            fits(old(self).phase, e),
            has_room(old(self)@, e),
            old(self).phase == Phase::CopyLink || old(self).phase == Phase::MakeDir || old(self).phase == Phase::OpenDir || old(self).phase == Phase::NextChild,
        ensures
            final(self)@ == after(old(self)@, e),
            final(self).totals == old(self).totals,
    {
        let ghost s = self@;
        match self.phase {
            Phase::CopyLink => {
                match e {
                    Event::Failed(m) => {
                        self.finish(End::Failed(m));
                    },
                    _ => {
                        self.files_done = self.files_done + 1;
                        self.phase = Phase::ReportFile;
                    },
                }
            },
            Phase::MakeDir => {
                match e {
                    Event::Failed(m) => {
                        self.finish(End::Failed(m));
                    },
                    _ => {
                        self.phase = Phase::OpenDir;
                    },
                }
            },
            Phase::OpenDir => {
                match e {
                    Event::Failed(m) => {
                        self.finish(End::Failed(m));
                    },
                    _ => {
                        let frame = (self.src.clone(), self.dest.clone());
                        self.frames.push(frame);
                        self.phase = Phase::NextChild;
                    },
                }
            },
            Phase::NextChild => {
                let k: usize = self.frames.len() - 1;
                match e {
                    Event::ChildFailed(m) => {
                        let path = self.frames[k].0.clone();
                        self.push_error(path, m);
                    },
                    Event::Child(name) => {
                        if self.cancel.is_cancelled() {
                            self.cut = true;
                            assert(self@ =~= (RunView { cut: true, ..s }));
                            self.leave_dir();
                        } else {
                            self.src = self.frames[k].0.join_bytes(&name);
                            self.dest = self.frames[k].1.join_bytes(&name);
                            self.phase = Phase::Poll;
                        }
                    },
                    _ => {
                        self.leave_dir();
                    },
                }
            },
            _ => {},
        }
        assert(self@ =~= after(s, e));
    }

    /// What comes of copying a file.
    fn on_file(&mut self, e: Event)
        requires
            consistent(old(self)@),
            fits(old(self).phase, e),
            has_room(old(self)@, e),
            old(self).phase == Phase::OpenFile || old(self).phase == Phase::PollChunk || old(self).phase == Phase::CopyChunk || old(self).phase == Phase::ReportChunk || old(self).phase == Phase::CloseFile || old(self).phase == Phase::DropFile || old(self).phase == Phase::ReportFile,
        ensures
            final(self)@ == after(old(self)@, e),
            final(self).totals == old(self).totals,
    {
        let ghost s = self@;
        match self.phase {
            Phase::OpenFile => {
                match e {
                    Event::Failed(m) => {
                        self.finish(End::Failed(m));
                    },
                    _ => {
                        self.phase = Phase::PollChunk;
                    },
                }
            },
            Phase::PollChunk => {
                if self.cancel.is_cancelled() {
                    self.phase = Phase::DropFile;
                } else {
                    self.phase = Phase::CopyChunk;
                }
            },
            Phase::CopyChunk => {
                match e {
                    Event::Failed(m) => {
                        self.finish(End::Failed(m));
                    },
                    Event::Chunk(n) => {
                        if n == 0 {
                            self.phase = Phase::CloseFile;
                        } else {
                            self.bytes_done = self.bytes_done + n;
                            self.phase = Phase::ReportChunk;
                        }
                    },
                    _ => {},
                }
            },
            Phase::ReportChunk => {
                self.phase = Phase::PollChunk;
            },
            Phase::CloseFile => {
                match e {
                    Event::Failed(m) => {
                        self.finish(End::Failed(m));
                    },
                    _ => {
                        self.files_done = self.files_done + 1;
                        self.phase = Phase::ReportFile;
                    },
                }
            },
            Phase::DropFile => {
                self.finish(End::Cut);
            },
            Phase::ReportFile => {
                self.finish(End::Written);
            },
            _ => {},
        }
        assert(self@ =~= after(s, e));
    }

    /// What comes of a move and of the end of a run.
    fn on_moved(&mut self, e: Event)
        requires
            consistent(old(self)@),
            fits(old(self).phase, e),
            has_room(old(self)@, e),
            old(self).phase == Phase::Rename || old(self).phase == Phase::StatMoved || old(self).phase == Phase::CountMoved || old(self).phase == Phase::ReportMoved || old(self).phase == Phase::RemoveSource || old(self).phase == Phase::ReportFinal,
        ensures
            final(self)@ == after(old(self)@, e),
            final(self).totals == old(self).totals,
    {
        let ghost s = self@;
        match self.phase {
            Phase::Rename => {
                match e {
                    Event::Failed(m) => {
                        self.finish(End::Failed(m));
                    },
                    Event::CrossDevice => {
                        self.move_by_copying();
                    },
                    _ => {
                        self.phase = Phase::StatMoved;
                    },
                }
            },
            Phase::StatMoved => {
                match e {
                    Event::Failed(m) => {
                        self.finish(End::Failed(m));
                    },
                    Event::Meta(kind, len) => {
                        if kind == EntryKind::Directory {
                            self.phase = Phase::CountMoved;
                        } else {
                            self.files_done = self.files_done + 1;
                            self.bytes_done = self.bytes_done + len;
                            self.phase = Phase::ReportMoved;
                        }
                    },
                    _ => {},
                }
            },
            Phase::CountMoved => {
                if let Event::Counted(files, bytes) = e {
                    self.files_done = self.files_done + files;
                    self.bytes_done = self.bytes_done + bytes;
                }
                self.phase = Phase::ReportMoved;
            },
            Phase::ReportMoved => {
                self.finish(End::Written);
            },
            Phase::RemoveSource => {
                match e {
                    Event::Failed(m) => {
                        self.fail_top(m);
                    },
                    _ => {
                        let target = self.target.clone();
                        self.succeed_top(target);
                    },
                }
            },
            Phase::ReportFinal => {
                self.phase = Phase::Finished;
            },
            _ => {},
        }
        assert(self@ =~= after(s, e));
    }

    /// Takes the result of the work that the phase asked for, and whether the
    /// run was cancelled meanwhile.
    pub fn step(&mut self, e: Event, cancelled: bool)
        requires
            consistent(old(self)@),
            fits(old(self).phase, e),
            has_room(old(self)@, e),
        ensures
            final(self)@ == after(noticed(old(self)@, cancelled), e),
            consistent(final(self)@),
            final(self).totals == old(self).totals,
    {
        if cancelled {
            self.cancel.cancel();
        }
        let ghost s = noticed(old(self)@, cancelled);
        assert(self@ =~= s);
        proof {
            lemma_after_consistent(s, e);
        }
        match self.phase {
            Phase::Poll
            | Phase::StatSource
            | Phase::StatDest => {
                self.on_examined(e);
            },
            Phase::Ask
            | Phase::Probe
            | Phase::RemoveDest => {
                self.on_conflict(e);
            },
            Phase::CopyLink
            | Phase::MakeDir
            | Phase::OpenDir
            | Phase::NextChild => {
                self.on_tree(e);
            },
            Phase::OpenFile
            | Phase::PollChunk
            | Phase::CopyChunk
            | Phase::ReportChunk
            | Phase::CloseFile
            | Phase::DropFile
            | Phase::ReportFile => {
                self.on_file(e);
            },
            Phase::Rename
            | Phase::StatMoved
            | Phase::CountMoved
            | Phase::ReportMoved
            | Phase::RemoveSource
            | Phase::ReportFinal => {
                self.on_moved(e);
            },
            Phase::Finished => {},
        }
    }

    /// The progress to publish, and whether it goes past the throttle.
    pub fn progress(&self) -> (r: (Progress, bool))
        ensures
            r.0.op == self.op,
            r.0.current@ == if self.phase == Phase::ReportFinal {
                Seq::<u8>::empty()
            } else {
                self.src@
            },
            r.0.files_done == self.files_done,
            r.0.bytes_done == self.bytes_done,
            r.0.files_total == self.totals.files,
            r.0.bytes_total == self.totals.bytes,
            r.1 == (self.phase == Phase::ReportFile || self.phase == Phase::ReportFinal),
    {
        let current = if self.phase == Phase::ReportFinal {
            UnixPath { bytes: Vec::new() }
        } else {
            self.src.clone()
        };
        let force: bool = self.phase == Phase::ReportFile || self.phase == Phase::ReportFinal;
        (
            Progress {
                op: self.op,
                current,
                files_done: self.files_done,
                files_total: self.totals.files,
                bytes_done: self.bytes_done,
                bytes_total: self.totals.bytes,
            },
            force,
        )
    }

    /// The outcome of a finished run. `cancelled` is the state of the flag at
    /// the end.
    pub fn outcome(self, cancelled: bool) -> (r: CopyOutcome)
        requires
            self.phase == Phase::Finished,
        ensures
            r.succeeded == self.dests@.len(),
            r.errors == self.errors,
            r.cancelled == (self.stopped || self.cancel.cancelled || cancelled),
            r.skipped == self.skipped,
            r.dests == self.dests,
    {
        let n: u64 = self.dests.len() as u64;
        CopyOutcome {
            succeeded: n,
            errors: self.errors,
            cancelled: self.stopped || self.cancel.cancelled || cancelled,
            skipped: self.skipped,
            dests: self.dests,
        }
    }
}

// ---------------------------------------------------------------------------
// What holds of every run
// ---------------------------------------------------------------------------

/// Whether all of the source at hand was processed: no error was added since it
/// began and nothing was left out because the run was cancelled.
pub open spec fn processed(s: RunView) -> bool {
    s.errors.len() == s.errors_begun && !s.cut
}

/// Whether a source that is moved by copying was copied in full: nothing failed,
/// nothing was passed over and nothing was left out.
pub open spec fn copied_in_full(s: RunView) -> bool {
    s.by_copying && processed(s) && !s.passed
}

/// Whether `t` has one success more than `s`: that of the source at hand.
pub open spec fn one_more(s: RunView, t: RunView) -> bool {
    &&& t.errors == s.errors
    &&& t.dests.len() == s.dests.len() + 1
    &&& t.dests == s.dests.push((origin(s), t.dests.last().1))
}

/// What leaving an entry keeps and where it leads.
pub(crate) proof fn lemma_ended(s: RunView, r: EntryEnd)
    requires
        1 <= s.next <= s.srcs.len(),
        s.probe < MAX_CANDIDATES,
        s.by_copying ==> s.op == Op::Move,
        0 <= s.errors_begun <= s.errors.len(),
        forall|i: int|
            0 <= i < s.dests.len() ==> s.srcs.take(s.next).contains((#[trigger] s.dests[i]).0),
    ensures
        keeps_records(s, finish(s, r)),
        finish(s, r).skipped == s.skipped,
        finish(s, r).cancelled == s.cancelled,
        ({
            let t = finish(s, r);
            ||| t.phase == Phase::NextChild && t.next == s.next
            ||| t.phase == Phase::RemoveSource && t.next == s.next && !s.cancelled && t.errors
                == s.errors && copied_in_full(s) && t.dests == s.dests
            ||| t.phase == Phase::Poll && t.next > s.next && !s.cancelled
            ||| t.phase == Phase::ReportFinal
        }),
        finish(s, r).dests != s.dests ==> processed(s) && one_more(s, finish(s, r)),
        r is Skipped ==> finish(s, r).passed || finish(s, r).next > s.next || finish(s, r).phase
            == Phase::ReportFinal,
{
    lemma_dests_of(s, s.dest);
    if s.frames.len() == 0 {
        lemma_begin(s);
        lemma_begin(RunView { dests: s.dests.push((origin(s), s.dest)), ..s });
        if r is Failed {
            lemma_begin(RunView { errors: s.errors.push((origin(s), io_text(r->Failed_0))), ..s });
        }
    }
}

/// Whether `t` has all that `s` recorded.
pub open spec fn keeps_records(s: RunView, t: RunView) -> bool {
    &&& s.errors.is_prefix_of(t.errors)
    &&& s.dests.is_prefix_of(t.dests)
    &&& s.files_done <= t.files_done
    &&& s.bytes_done <= t.bytes_done
    &&& s.skipped <= t.skipped <= s.skipped + 1
    &&& s.next <= t.next
    &&& s.cancelled ==> t.cancelled
    &&& t.op == s.op
    &&& t.srcs == s.srcs
    &&& t.next == s.next ==> {
        ||| t.phase == Phase::ReportFinal
        ||| t.errors_begun == s.errors_begun && (s.by_copying ==> t.by_copying) && (s.passed
            ==> t.passed) && (s.cut ==> t.cut)
    }
}

/// All that the laws below need of one step.
#[verifier::rlimit(100)]
#[verifier::spinoff_prover]
pub(crate) proof fn lemma_step(s: RunView, e: Event)
    requires
        consistent(s),
        fits(s.phase, e),
    ensures
        keeps_records(s, after(s, e)),
        after(s, e).phase == Phase::RemoveSource && s.phase != Phase::RemoveSource ==> after(
            s,
            e,
        ).next == s.next && !after(s, e).cancelled && after(s, e).errors == s.errors
            && copied_in_full(s),
        after(s, e).dests != s.dests ==> processed(s) && one_more(s, after(s, e)),
        e == Event::Decision(Conflict::Skip) ==> after(s, e).passed || after(s, e).next > s.next
            || after(s, e).phase == Phase::ReportFinal,
        s.cancelled ==> {
            &&& after(s, e).phase != Phase::StatSource
            &&& after(s, e).phase != Phase::CopyChunk
            &&& after(s, e).phase == Phase::Poll ==> s.phase == Phase::StatDest || s.phase
                == Phase::Rename
            &&& after(s, e).next > s.next ==> after(s, e).phase == Phase::ReportFinal
        },
        after(s, e).phase == Phase::Ask ==> s.phase == Phase::StatDest && e is Meta,
        after(s, e).phase == Phase::RemoveDest ==> s.phase == Phase::Ask && e is Decision
            && e->Decision_0 == Conflict::Overwrite,
{
    match s.phase {
        Phase::Ask => {
            lemma_ended(passed_over(s), EntryEnd::Skipped);
            lemma_ended(RunView { cancelled: true, ..s }, EntryEnd::Cut);
        },
        Phase::NextChild => {
            let left = RunView {
                src: s.frames.last().0,
                dest: s.frames.last().1,
                frames: s.frames.drop_last(),
                ..s
            };
            lemma_ended(left, EntryEnd::Written);
            lemma_ended(RunView { cut: true, ..left }, EntryEnd::Written);
        },
        Phase::RemoveSource => {
            lemma_dests_of(s, s.target);
            lemma_begin(RunView { dests: s.dests.push((origin(s), s.target)), ..s });
            if e is Failed {
                lemma_begin(
                    RunView { errors: s.errors.push((origin(s), io_text(e->Failed_0@))), ..s },
                );
            }
        },
        Phase::ReportFinal | Phase::Finished => {},
        _ => {
            lemma_ended(s, EntryEnd::Cut);
            lemma_ended(s, EntryEnd::Written);
            if e is Failed {
                lemma_ended(s, EntryEnd::Failed(e->Failed_0@));
            }
        },
    }
}

/// A failure on one entry never undoes what was recorded: errors and
/// destinations are only added, the counters never fall, and a cancelled run
/// stays cancelled.
pub proof fn records_only_grow(s: RunView, e: Event)
    requires
        consistent(s),
        fits(s.phase, e),
    ensures
        keeps_records(s, after(s, e)),
{
    lemma_step(s, e);
}

proof fn lemma_dests_of(t: RunView, d: Seq<u8>)
    requires
        1 <= t.next <= t.srcs.len(),
        forall|i: int|
            0 <= i < t.dests.len() ==> t.srcs.take(t.next).contains((#[trigger] t.dests[i]).0),
    ensures
        forall|i: int|
            0 <= i < t.dests.push((origin(t), d)).len() ==> t.srcs.take(t.next).contains(
                (#[trigger] t.dests.push((origin(t), d))[i]).0,
            ),
{
    assert forall|i: int| 0 <= i < t.dests.push((origin(t), d)).len() implies t.srcs.take(
        t.next,
    ).contains((#[trigger] t.dests.push((origin(t), d))[i]).0) by {
        if i < t.dests.len() {
            assert(t.dests.push((origin(t), d))[i] == t.dests[i]);
        } else {
            assert(t.srcs.take(t.next)[t.next - 1] == origin(t));
        }
    }
}

/// A source is removed only in a move that went by copying, only if all of it
/// was copied (nothing failed, nothing was passed over at the user's request,
/// nothing was left out), and not once the run is cancelled.
pub proof fn source_removed_only_after_a_full_copy(s: RunView, e: Event)
    requires
        consistent(s),
        fits(s.phase, e),
        s.phase != Phase::RemoveSource,
        after(s, e).phase == Phase::RemoveSource,
    ensures
        s.op == Op::Move,
        !after(s, e).cancelled,
        copied_in_full(s),
        copied_in_full(after(s, e)),
        after(s, e).errors == s.errors,
        after(s, e).next == s.next,
{
    lemma_step(s, e);
    lemma_after_consistent(s, e);
}

/// A top-level source counts as a success only if no error was recorded since it
/// began, and nothing of it was left out because the run was cancelled.
pub proof fn only_what_was_processed_succeeds(s: RunView, e: Event)
    requires
        consistent(s),
        fits(s.phase, e),
        after(s, e).dests != s.dests,
    ensures
        processed(s),
        one_more(s, after(s, e)),
{
    lemma_step(s, e);
}

/// The run after a sequence of events, each with whether the run was found
/// cancelled.
pub open spec fn run_of(s: RunView, trace: Seq<(Event, bool)>) -> RunView
    decreases trace.len(),
{
    if trace.len() == 0 {
        s
    } else {
        let t = run_of(s, trace.drop_last());
        after(noticed(t, trace.last().1), trace.last().0)
    }
}

/// Whether every event of a trace answers the phase it meets.
pub open spec fn trace_fits(s: RunView, trace: Seq<(Event, bool)>) -> bool
    decreases trace.len(),
{
    trace.len() == 0 || trace_fits(s, trace.drop_last()) && fits(
        run_of(s, trace.drop_last()).phase,
        trace.last().0,
    )
}

/// Whether the user asked for something to be skipped.
pub open spec fn skips(trace: Seq<(Event, bool)>) -> bool {
    exists|i: int| 0 <= i < trace.len() && (#[trigger] trace[i]).0 == Event::Decision(Conflict::Skip)
}

/// A move that goes by copying keeps its source unless all of it was copied:
/// where the source comes to be removed, not a single error was recorded from
/// the start of the copying on, and the user asked for nothing to be skipped.
pub proof fn source_is_kept_unless_copied_in_full(s: RunView, trace: Seq<(Event, bool)>)
    requires
        consistent(s),
        trace_fits(s, trace),
        s.by_copying,
        s.errors.len() == s.errors_begun,
        run_of(s, trace).next == s.next,
        run_of(s, trace).phase == Phase::RemoveSource,
    ensures
        run_of(s, trace).errors == s.errors,
        copied_in_full(run_of(s, trace)),
        !skips(trace),
{
    lemma_trace(s, trace);
    let t = run_of(s, trace);
    assert(s.errors =~= t.errors);
}

#[verifier::rlimit(100)]
pub(crate) proof fn lemma_trace(s: RunView, trace: Seq<(Event, bool)>)
    requires
        consistent(s),
        trace_fits(s, trace),
    ensures
        consistent(run_of(s, trace)),
        s.errors.is_prefix_of(run_of(s, trace).errors),
        s.next <= run_of(s, trace).next,
        s.cancelled ==> run_of(s, trace).cancelled,
        run_of(s, trace).next == s.next ==> ({
            let t = run_of(s, trace);
            ||| t.phase == Phase::ReportFinal || t.phase == Phase::Finished
            ||| t.errors_begun == s.errors_begun && (t.passed || !skips(trace))
        }),
    decreases trace.len(),
{
    if trace.len() > 0 {
        let before = trace.drop_last();
        lemma_trace(s, before);
        let t = run_of(s, before);
        let u = noticed(t, trace.last().1);
        let e = trace.last().0;
        assert(consistent(u));
        lemma_after_consistent(u, e);
        lemma_step(u, e);
        let v = after(u, e);
        assert(v == run_of(s, trace));
        assert(s.errors.is_prefix_of(v.errors)) by {
            assert(s.errors =~= v.errors.subrange(0, s.errors.len() as int));
        }
        if skips(trace) && e != Event::Decision(Conflict::Skip) {
            let i = choose|i: int|
                0 <= i < trace.len() && (#[trigger] trace[i]).0 == Event::Decision(Conflict::Skip);
            assert(before[i] == trace[i]);
            assert(skips(before));
        }
    }
}

/// A cancelled run begins nothing new: no further entry is examined and no
/// further chunk is copied.
pub proof fn cancelled_run_begins_nothing(s: RunView, e: Event)
    requires
        consistent(s),
        fits(s.phase, e),
        s.cancelled,
    ensures
        after(s, e).phase != Phase::StatSource,
        after(s, e).phase != Phase::CopyChunk,
        after(s, e).phase == Phase::Poll ==> s.phase == Phase::StatDest || s.phase == Phase::Rename,
        after(s, e).next > s.next ==> after(s, e).phase == Phase::ReportFinal,
{
    lemma_step(s, e);
}

/// Copying leaves the sources alone: in a run that copies, nothing is renamed
/// and no source is removed.
pub proof fn copying_leaves_the_sources(s: RunView, e: Event)
    requires
        consistent(s),
        fits(s.phase, e),
        s.op == Op::Copy,
    ensures
        after(s, e).op == Op::Copy,
        after(s, e).phase != Phase::Rename,
        after(s, e).phase != Phase::RemoveSource,
{
    lemma_step(s, e);
    lemma_after_consistent(s, e);
}

/// The resolver is asked only about a destination that exists, and never where
/// a directory meets a directory.
pub proof fn asked_only_on_conflict(s: RunView, e: Event)
    requires
        consistent(s),
        fits(s.phase, e),
        after(s, e).phase == Phase::Ask,
    ensures
        s.phase == Phase::StatDest,
        e matches Event::Meta(kind, _) && !(kind == EntryKind::Directory && s.kind
            == EntryKind::Directory),
{
    lemma_step(s, e);
}

/// An existing destination is removed only on the decision to overwrite it.
pub proof fn removed_only_to_overwrite(s: RunView, e: Event)
    requires
        consistent(s),
        fits(s.phase, e),
        after(s, e).phase == Phase::RemoveDest,
    ensures
        s.phase == Phase::Ask,
        e == Event::Decision(Conflict::Overwrite),
        after(s, e).dest == s.dest,
{
    lemma_step(s, e);
}

/// Whether a phase puts something new at the destination.
pub open spec fn creates(p: Phase) -> bool {
    p == Phase::CopyLink || p == Phase::OpenFile || p == Phase::Rename
}

/// Whether a phase has the destination open for writing.
pub open spec fn writes(p: Phase) -> bool {
    p == Phase::PollChunk || p == Phase::CopyChunk || p == Phase::ReportChunk || p
        == Phase::CloseFile || p == Phase::DropFile
}

#[verifier::rlimit(100)]
#[verifier::spinoff_prover]
pub(crate) proof fn lemma_written(s: RunView, e: Event)
    requires
        consistent(s),
        fits(s.phase, e),
    ensures
        creates(after(s, e).phase) ==> {
            ||| s.phase == Phase::StatDest && e is Failed && after(s, e).dest == s.dest
            ||| s.phase == Phase::Probe && e == Event::Occupied(false) && after(s, e).dest
                == beside(s.dest, s.probe)
            ||| s.phase == Phase::Probe && e == Event::Occupied(true) && s.probe + 1
                == MAX_CANDIDATES
            ||| s.phase == Phase::RemoveDest && e is Done && after(s, e).dest == s.dest
        },
        writes(after(s, e).phase) ==> after(s, e).dest == s.dest && (writes(s.phase) || s.phase
            == Phase::OpenFile && e is Done),
{
    match s.phase {
        Phase::Ask => {
            lemma_ended(passed_over(s), EntryEnd::Skipped);
            lemma_ended(RunView { cancelled: true, ..s }, EntryEnd::Cut);
        },
        Phase::NextChild => {
            let left = RunView {
                src: s.frames.last().0,
                dest: s.frames.last().1,
                frames: s.frames.drop_last(),
                ..s
            };
            lemma_ended(left, EntryEnd::Written);
            lemma_ended(RunView { cut: true, ..left }, EntryEnd::Written);
        },
        Phase::RemoveSource => {
            lemma_dests_of(s, s.target);
            lemma_begin(RunView { dests: s.dests.push((origin(s), s.target)), ..s });
            if e is Failed {
                lemma_begin(
                    RunView { errors: s.errors.push((origin(s), io_text(e->Failed_0@))), ..s },
                );
            }
        },
        Phase::ReportFinal | Phase::Finished => {},
        _ => {
            lemma_ended(s, EntryEnd::Cut);
            lemma_ended(s, EntryEnd::Written);
            if e is Failed {
                lemma_ended(s, EntryEnd::Failed(e->Failed_0@));
            }
        },
    }
}

/// Whether every conflict of a trace is answered by keeping both.
pub open spec fn keeps_both(trace: Seq<(Event, bool)>) -> bool {
    forall|i: int|
        0 <= i < trace.len() && (#[trigger] trace[i]).0 is Decision ==> trace[i].0
            == Event::Decision(Conflict::KeepBoth)
}

/// A run that keeps both wherever something is in the way removes nothing that
/// exists at a destination.
pub proof fn keeping_both_removes_nothing(s: RunView, trace: Seq<(Event, bool)>)
    requires
        consistent(s),
        trace_fits(s, trace),
        s.phase != Phase::RemoveDest,
        keeps_both(trace),
    ensures
        run_of(s, trace).phase != Phase::RemoveDest,
    decreases trace.len(),
{
    if trace.len() > 0 {
        let before = trace.drop_last();
        assert forall|i: int| 0 <= i < before.len() && (#[trigger] before[i]).0 is Decision implies
            before[i].0 == Event::Decision(Conflict::KeepBoth) by {
            assert(before[i] == trace[i]);
        }
        keeping_both_removes_nothing(s, before);
        lemma_trace(s, before);
        let u = noticed(run_of(s, before), trace.last().1);
        assert(consistent(u));
        assert(trace[trace.len() - 1] == trace.last());
        lemma_step(u, trace.last().0);
    }
}

/// In such a run, what is new is put only where nothing was found: at the
/// destination itself, or at the first free name beside it. The one exception is
/// a name of which all candidates are taken.
pub proof fn keeping_both_writes_only_where_nothing_is(
    s: RunView,
    trace: Seq<(Event, bool)>,
    e: Event,
    cancelled: bool,
)
    requires
        consistent(s),
        s.phase != Phase::RemoveDest,
        trace_fits(s, trace),
        keeps_both(trace),
        fits(run_of(s, trace).phase, e),
        creates(after(noticed(run_of(s, trace), cancelled), e).phase),
    ensures
        ({
            let t = run_of(s, trace);
            let dest = after(noticed(t, cancelled), e).dest;
            ||| t.phase == Phase::StatDest && e is Failed && dest == t.dest
            ||| t.phase == Phase::Probe && e == Event::Occupied(false) && dest == beside(
                t.dest,
                t.probe,
            )
            ||| t.phase == Phase::Probe && e == Event::Occupied(true) && t.probe + 1
                == MAX_CANDIDATES
        }),
{
    keeping_both_removes_nothing(s, trace);
    lemma_trace(s, trace);
    let u = noticed(run_of(s, trace), cancelled);
    assert(consistent(u));
    lemma_written(u, e);
}

/// Bytes are written to, and a cancelled copy is removed from, the very file
/// that the run created.
pub proof fn only_the_created_file_is_written(s: RunView, e: Event)
    requires
        consistent(s),
        fits(s.phase, e),
        writes(after(s, e).phase),
    ensures
        after(s, e).dest == s.dest,
        writes(s.phase) || s.phase == Phase::OpenFile && e is Done,
{
    lemma_written(s, e);
}

} // verus!
