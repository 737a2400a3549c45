//! What each piece of work does for a run: which entry comes next, what is
//! written, what is counted, and what is recorded.
use crate::copy_laws::active;
use crate::copy_progress::{Conflict, EntryKind, Op};
use crate::copy_run::{
    after, begin, beside_dir, beside_name, consistent, finish, fits, initial, io_text, lemma_begin,
    noticed, origin, passed_over, EntryEnd, Event, Phase, RunView,
};
use crate::file_ops::{candidate_path, MAX_CANDIDATES};
use crate::unix_path::{file_name, joined, lossy, parent};
use vstd::prelude::*;

verus! {

// ---------------------------------------------------------------------------
// Entries
// ---------------------------------------------------------------------------

/// Every child that a run is told of is begun, whatever its name: the run goes on
/// with that child of the innermost open directory, bound for the same name in
/// the directory that this one is copied to, and no directory is left for it.
pub proof fn every_child_is_begun(s: RunView, name: Vec<u8>)
    requires
        consistent(s),
        s.phase == Phase::NextChild,
        !s.cancelled,
    ensures
        ({
            let t = after(s, Event::Child(name));
            &&& t.phase == Phase::Poll
            &&& t.src == joined(s.frames[s.frames.len() - 1].0, name@)
            &&& t.dest == joined(s.frames[s.frames.len() - 1].1, name@)
            &&& t.frames == s.frames
            &&& t.stage == Op::Copy
            &&& t.errors == s.errors
            &&& t.dests == s.dests
            &&& t.skipped == s.skipped
            &&& t.passed == s.passed
            &&& t.cut == s.cut
        }),
{
}

/// The sources are begun one after the other: a run that is not cancelled goes on
/// with the first source from the next one on that has a name, bound for that
/// name in the destination, and ends where no such source is left.
pub proof fn the_next_source_is_begun(s: RunView)
    requires
        0 <= s.next <= s.srcs.len(),
    ensures
        ({
            let t = begin(s);
            &&& s.cancelled && s.next < s.srcs.len() ==> t.stopped && t.phase == Phase::ReportFinal
            &&& t.phase == Phase::Poll || t.phase == Phase::ReportFinal
            &&& t.phase == Phase::Poll ==> {
                &&& s.next < t.next <= s.srcs.len()
                &&& file_name(s.srcs[t.next - 1]) is Some
                &&& t.src == s.srcs[t.next - 1]
                &&& t.dest == joined(s.dest_dir, file_name(s.srcs[t.next - 1])->0)
                &&& t.stage == s.op
                &&& t.frames.len() == 0
                &&& !t.by_copying && !t.passed && !t.cut
                &&& t.errors_begun == s.errors.len()
                &&& forall|i: int|
                    s.next <= i < t.next - 1 ==> file_name(#[trigger] s.srcs[i]) is None
            }
            &&& !s.cancelled && t.phase == Phase::ReportFinal ==> {
                &&& t.stopped == s.stopped
                &&& forall|i: int|
                    s.next <= i < s.srcs.len() ==> file_name(#[trigger] s.srcs[i]) is None
            }
        }),
    decreases s.srcs.len() - s.next,
{
    if s.next < s.srcs.len() && !s.cancelled && file_name(s.srcs[s.next]) is None {
        the_next_source_is_begun(RunView { next: s.next + 1, ..s });
    }
}

/// An entry that is begun is examined, and then its destination; nothing but a
/// cancel keeps a run from it.
pub proof fn a_begun_entry_is_examined(s: RunView, kind: EntryKind, n: u64)
    requires
        consistent(s),
        !s.cancelled,
    ensures
        s.phase == Phase::Poll ==> {
            let t = after(s, Event::Ready);
            t.phase == Phase::StatSource && t.src == s.src && t.dest == s.dest && t.frames
                == s.frames
        },
        s.phase == Phase::StatSource ==> {
            let t = after(s, Event::Meta(kind, n));
            t.phase == Phase::StatDest && t.src == s.src && t.dest == s.dest && t.kind == kind
                && t.frames == s.frames
        },
{
}

/// An entry whose destination is free is written there: a link is made anew, a
/// directory is made, a file is opened, and what is moved is renamed.
pub proof fn a_free_destination_is_written(s: RunView, m: String)
    requires
        consistent(s),
        s.phase == Phase::StatDest,
    ensures
        ({
            let t = after(s, Event::Failed(m));
            &&& t.src == s.src
            &&& t.dest == s.dest
            &&& t.frames == s.frames
            &&& s.stage == Op::Move ==> t.phase == Phase::Rename
            &&& s.stage == Op::Copy && s.kind == EntryKind::Link ==> t.phase == Phase::CopyLink
            &&& s.stage == Op::Copy && s.kind == EntryKind::Directory ==> t.phase == Phase::MakeDir
            &&& s.stage == Op::Copy && s.kind == EntryKind::Other ==> t.phase == Phase::OpenFile
        }),
{
}

/// Where something stands at the destination the run asks, but for a directory
/// that goes into a directory: it is copied into it, also where it is moved.
pub proof fn conflicts_are_asked_about(s: RunView, kind: EntryKind, n: u64)
    requires
        consistent(s),
        s.phase == Phase::StatDest,
    ensures
        ({
            let t = after(s, Event::Meta(kind, n));
            let merges = kind == EntryKind::Directory && s.kind == EntryKind::Directory;
            &&& t.src == s.src
            &&& t.dest == s.dest
            &&& (t.phase == Phase::Ask) == !merges
            &&& merges && s.stage == Op::Copy ==> t.phase == Phase::MakeDir
            &&& merges && s.stage == Op::Move ==> t.phase == Phase::Poll && t.stage == Op::Copy
                && t.by_copying && t.target == s.dest
        }),
{
}

/// The answer to a conflict is followed: to skip leaves the entry and goes on, to
/// overwrite removes what is there, to keep both looks for a free name from the
/// first one on, and to cancel ends the run.
pub proof fn answers_are_followed(s: RunView)
    requires
        consistent(s),
        s.phase == Phase::Ask,
    ensures
        ({
            let skip = after(s, Event::Decision(Conflict::Skip));
            let over = after(s, Event::Decision(Conflict::Overwrite));
            let both = after(s, Event::Decision(Conflict::KeepBoth));
            let stop = after(s, Event::Decision(Conflict::Cancel));
            &&& over.phase == Phase::RemoveDest && over.dest == s.dest && over.src == s.src
            &&& both.phase == Phase::Probe && both.probe == 0 && both.dest == s.dest && both.src
                == s.src
            &&& stop.cancelled
            &&& stop.dests == s.dests && stop.errors == s.errors && stop.skipped == s.skipped
            &&& skip.dests == s.dests && skip.errors == s.errors && skip.cancelled == s.cancelled
            &&& skip.files_done == s.files_done && skip.bytes_done == s.bytes_done
            &&& s.frames.len() == 0 ==> skip.skipped == s.skipped + 1 && (skip.next > s.next
                || skip.phase == Phase::ReportFinal)
            &&& s.frames.len() > 0 ==> skip.skipped == s.skipped && skip.phase == Phase::NextChild
                && skip.frames == s.frames && skip.passed
            &&& s.frames.len() > 0 ==> stop.phase == Phase::NextChild && stop.frames == s.frames
                && stop.cut
            &&& s.frames.len() == 0 ==> stop.phase == Phase::ReportFinal
        }),
{
    let top = RunView { skipped: s.skipped + 1, ..s };
    lemma_begin(top);
    lemma_begin(RunView { cancelled: true, ..s });
}

/// What is overwritten is written where it stood.
pub proof fn overwriting_writes_in_place(s: RunView)
    requires
        consistent(s),
        s.phase == Phase::RemoveDest,
    ensures
        ({
            let t = after(s, Event::Done);
            &&& t.dest == s.dest
            &&& t.src == s.src
            &&& s.stage == Op::Move ==> t.phase == Phase::Rename
            &&& s.stage == Op::Copy && s.kind == EntryKind::Link ==> t.phase == Phase::CopyLink
            &&& s.stage == Op::Copy && s.kind == EntryKind::Directory ==> t.phase == Phase::MakeDir
            &&& s.stage == Op::Copy && s.kind == EntryKind::Other ==> t.phase == Phase::OpenFile
        }),
{
}

/// Free names are looked for one after the other.
pub proof fn candidates_are_tried_in_turn(s: RunView)
    requires
        consistent(s),
        s.phase == Phase::Probe,
        s.probe + 1 < MAX_CANDIDATES,
    ensures
        after(s, Event::Occupied(true)).phase == Phase::Probe,
        after(s, Event::Occupied(true)).probe == s.probe + 1,
        after(s, Event::Occupied(true)).dest == s.dest,
{
}

/// The first free name is taken, and the first name of all where none is free; it
/// stands in the folder of the destination.
pub proof fn the_free_name_is_written(s: RunView)
    requires
        consistent(s),
        s.phase == Phase::Probe,
    ensures
        ({
            let free = after(s, Event::Occupied(false));
            let last = after(s, Event::Occupied(true));
            &&& free.dest == candidate_path(beside_dir(s.dest), beside_name(s.dest), s.probe)
            &&& free.src == s.src
            &&& free.phase != Phase::Probe
            &&& s.probe + 1 >= MAX_CANDIDATES ==> {
                &&& last.dest == candidate_path(beside_dir(s.dest), beside_name(s.dest), 0)
                &&& last.src == s.src
                &&& last.phase != Phase::Probe
            }
            &&& parent(s.dest) is Some ==> beside_dir(s.dest) == parent(s.dest)->0
            &&& file_name(s.dest) is Some ==> beside_name(s.dest) == lossy(file_name(s.dest)->0)
        }),
{
}

/// A directory is made, opened, and its children are taken until there are no
/// more; then the run is back in the directory above, or done with the source.
pub proof fn directories_are_walked(s: RunView)
    requires
        consistent(s),
    ensures
        s.phase == Phase::MakeDir ==> after(s, Event::Done).phase == Phase::OpenDir && after(
            s,
            Event::Done,
        ).src == s.src && after(s, Event::Done).dest == s.dest && after(s, Event::Done).frames
            == s.frames,
        s.phase == Phase::OpenDir ==> after(s, Event::Done).phase == Phase::NextChild && after(
            s,
            Event::Done,
        ).frames == s.frames.push((s.src, s.dest)),
        s.phase == Phase::NextChild && s.frames.len() > 1 ==> {
            let t = after(s, Event::NoMoreChildren);
            t.phase == Phase::NextChild && t.frames == s.frames.drop_last() && t.errors == s.errors
                && t.passed == s.passed && t.cut == s.cut && t.dests == s.dests
        },
{
}

/// A file is copied chunk by chunk until nothing is left, and then closed.
pub proof fn files_are_copied_to_their_end(s: RunView, n: u64)
    requires
        consistent(s),
        !s.cancelled,
    ensures
        s.phase == Phase::OpenFile ==> after(s, Event::Done).phase == Phase::PollChunk,
        s.phase == Phase::PollChunk ==> after(s, Event::Ready).phase == Phase::CopyChunk,
        s.phase == Phase::CopyChunk && n > 0 ==> after(s, Event::Chunk(n)).phase
            == Phase::ReportChunk,
        s.phase == Phase::CopyChunk && n == 0 ==> after(s, Event::Chunk(n)).phase
            == Phase::CloseFile,
        s.phase == Phase::ReportChunk ==> after(s, Event::Done).phase == Phase::PollChunk,
        s.phase == Phase::CloseFile || s.phase == Phase::CopyLink ==> after(s, Event::Done).phase
            == Phase::ReportFile,
{
}

/// A cancelled copy of a file is taken back: the file is dropped at the next
/// chunk, and neither counted nor recorded.
pub proof fn a_cancelled_file_is_dropped(s: RunView)
    requires
        consistent(s),
        s.cancelled,
    ensures
        s.phase == Phase::PollChunk ==> after(s, Event::Ready).phase == Phase::DropFile && after(
            s,
            Event::Ready,
        ).dest == s.dest,
        s.phase == Phase::DropFile ==> {
            let t = after(s, Event::Done);
            &&& t.dests == s.dests
            &&& t.files_done == s.files_done
            &&& s.frames.len() > 0 ==> t.cut && t.phase == Phase::NextChild && t.frames == s.frames
            &&& s.frames.len() == 0 ==> t.phase == Phase::ReportFinal
        },
{
    lemma_begin(s);
}

/// What is on another file system is copied to the same destination instead of
/// being renamed.
pub proof fn other_devices_are_copied_to(s: RunView)
    requires
        consistent(s),
        s.phase == Phase::Rename,
    ensures
        ({
            let t = after(s, Event::CrossDevice);
            &&& t.phase == Phase::Poll
            &&& t.stage == Op::Copy
            &&& t.by_copying
            &&& t.src == s.src
            &&& t.dest == s.dest
            &&& t.target == s.dest
            &&& t.errors == s.errors
        }),
{
}

// ---------------------------------------------------------------------------
// Counts
// ---------------------------------------------------------------------------

/// The bytes that are done grow by what was copied or moved, and by nothing else.
#[verifier::rlimit(100)]
#[verifier::spinoff_prover]
pub proof fn bytes_are_counted(s: RunView, e: Event)
    requires
        consistent(s),
        fits(s.phase, e),
    ensures
        s.phase == Phase::CopyChunk ==> (e matches Event::Chunk(n) ==> after(s, e).bytes_done
            == s.bytes_done + n),
        s.phase == Phase::StatMoved ==> (e matches Event::Meta(k, n) ==> after(s, e).bytes_done
            == s.bytes_done + if k == EntryKind::Directory {
            0int
        } else {
            n as int
        }),
        s.phase == Phase::CountMoved ==> (e matches Event::Counted(f, b) ==> after(s, e).bytes_done
            == s.bytes_done + b),
        !(e is Chunk || e is Meta || e is Counted) ==> after(s, e).bytes_done == s.bytes_done,
        s.phase == Phase::StatSource || s.phase == Phase::StatDest ==> after(s, e).bytes_done
            == s.bytes_done,
{
    lemma_counts(s, e);
}

/// The files that are done grow by one with each file or link that is written or
/// moved, by what a moved directory holds, and by nothing else.
#[verifier::rlimit(100)]
#[verifier::spinoff_prover]
pub proof fn files_are_counted(s: RunView, e: Event)
    requires
        consistent(s),
        fits(s.phase, e),
    ensures
        (s.phase == Phase::CloseFile || s.phase == Phase::CopyLink) && e is Done ==> after(
            s,
            e,
        ).files_done == s.files_done + 1,
        s.phase == Phase::StatMoved ==> (e matches Event::Meta(k, n) ==> after(s, e).files_done
            == s.files_done + if k == EntryKind::Directory {
            0int
        } else {
            1
        }),
        s.phase == Phase::CountMoved ==> (e matches Event::Counted(f, b) ==> after(s, e).files_done
            == s.files_done + f),
        s.phase != Phase::CloseFile && s.phase != Phase::CopyLink && s.phase != Phase::StatMoved
            && s.phase != Phase::CountMoved ==> after(s, e).files_done == s.files_done,
        e is Failed ==> after(s, e).files_done == s.files_done,
{
    lemma_counts(s, e);
}

/// Leaving an entry counts nothing.
proof fn lemma_finish_counts(s: RunView, r: EntryEnd)
    requires
        1 <= s.next <= s.srcs.len(),
    ensures
        finish(s, r).files_done == s.files_done,
        finish(s, r).bytes_done == s.bytes_done,
{
    if s.frames.len() == 0 {
        lemma_begin_counts(s);
        lemma_begin_counts(RunView { dests: s.dests.push((origin(s), s.dest)), ..s });
        if r is Failed {
            lemma_begin_counts(
                RunView {
                    errors: s.errors.push((origin(s), io_text(r->Failed_0))),
                    ..s
                },
            );
        }
    }
}

proof fn lemma_begin_counts(s: RunView)
    requires
        0 <= s.next <= s.srcs.len(),
    ensures
        begin(s).files_done == s.files_done,
        begin(s).bytes_done == s.bytes_done,
    decreases s.srcs.len() - s.next,
{
    if s.next < s.srcs.len() && !s.cancelled && file_name(s.srcs[s.next]) is None {
        lemma_begin_counts(RunView { next: s.next + 1, ..s });
    }
}

#[verifier::rlimit(100)]
#[verifier::spinoff_prover]
proof fn lemma_counts(s: RunView, e: Event)
    requires
        consistent(s),
        fits(s.phase, e),
    ensures
        s.phase != Phase::CloseFile && s.phase != Phase::CopyLink && s.phase != Phase::StatMoved
            && s.phase != Phase::CountMoved ==> after(s, e).files_done == s.files_done,
        s.phase != Phase::CopyChunk && s.phase != Phase::StatMoved && s.phase != Phase::CountMoved
            ==> after(s, e).bytes_done == s.bytes_done,
        e is Failed ==> after(s, e).files_done == s.files_done && after(s, e).bytes_done
            == s.bytes_done,
{
    match s.phase {
        Phase::Ask => {
            lemma_finish_counts(
                passed_over(s),
                EntryEnd::Skipped,
            );
            lemma_finish_counts(
                RunView { cancelled: true, ..s },
                EntryEnd::Cut,
            );
        },
        Phase::NextChild => {
            let left = RunView {
                src: s.frames.last().0,
                dest: s.frames.last().1,
                frames: s.frames.drop_last(),
                ..s
            };
            lemma_finish_counts(left, EntryEnd::Written);
            lemma_finish_counts(
                RunView { cut: true, ..left },
                EntryEnd::Written,
            );
        },
        Phase::RemoveSource => {
            lemma_begin_counts(RunView { dests: s.dests.push((origin(s), s.target)), ..s });
            if e is Failed {
                lemma_begin_counts(
                    RunView {
                        errors: s.errors.push(
                            (origin(s), io_text(e->Failed_0@)),
                        ),
                        ..s
                    },
                );
            }
        },
        Phase::ReportFinal | Phase::Finished => {},
        _ => {
            lemma_finish_counts(s, EntryEnd::Cut);
            lemma_finish_counts(s, EntryEnd::Written);
            if e is Failed {
                lemma_finish_counts(s, EntryEnd::Failed(e->Failed_0@));
            }
        },
    }
}

// ---------------------------------------------------------------------------
// Records
// ---------------------------------------------------------------------------

/// A top-level source that was copied or renamed without a failure and without a
/// cut is recorded with the place where it is now.
pub proof fn a_finished_source_is_recorded(s: RunView)
    requires
        consistent(s),
        s.frames.len() == 0,
        s.errors.len() == s.errors_begun,
        !s.cut,
        !s.by_copying,
    ensures
        s.phase == Phase::ReportFile || s.phase == Phase::ReportMoved ==> after(s, Event::Done).dests
            == s.dests.push((s.srcs[s.next - 1], s.dest)),
{
    if s.phase == Phase::ReportFile || s.phase == Phase::ReportMoved {
        lemma_pushed(s, s.dest);
    }
}

/// A top-level directory whose children are all done, without a failure and
/// without a cut, is recorded with the place where its copy is.
pub proof fn a_finished_directory_is_recorded(s: RunView)
    requires
        consistent(s),
        s.phase == Phase::NextChild,
        s.frames.len() == 1,
        s.errors.len() == s.errors_begun,
        !s.cut,
        !s.by_copying,
    ensures
        after(s, Event::NoMoreChildren).dests == s.dests.push(
            (s.srcs[s.next - 1], s.frames[0].1),
        ),
{
    let left = RunView {
        src: s.frames.last().0,
        dest: s.frames.last().1,
        frames: s.frames.drop_last(),
        ..s
    };
    lemma_pushed(left, left.dest);
}

/// A move that went by copying, of which nothing failed and nothing was passed
/// over, ends by removing its source; once that is removed, the move is recorded.
pub proof fn a_move_by_copying_removes_its_source(s: RunView)
    requires
        consistent(s),
        s.by_copying,
        s.errors.len() == s.errors_begun,
        !s.passed,
        !s.cut,
        !s.cancelled,
    ensures
        s.phase == Phase::ReportFile && s.frames.len() == 0 ==> after(s, Event::Done).phase
            == Phase::RemoveSource && after(s, Event::Done).src == s.src,
        s.phase == Phase::NextChild && s.frames.len() == 1 ==> after(s, Event::NoMoreChildren).phase
            == Phase::RemoveSource && after(s, Event::NoMoreChildren).src == s.frames[0].0,
        s.phase == Phase::RemoveSource ==> after(s, Event::Done).dests == s.dests.push(
            (s.srcs[s.next - 1], s.target),
        ),
{
    if s.phase == Phase::RemoveSource {
        lemma_pushed(s, s.target);
    }
}

proof fn lemma_pushed(s: RunView, d: Seq<u8>)
    requires
        1 <= s.next <= s.srcs.len(),
        s.probe < MAX_CANDIDATES,
        s.by_copying ==> s.op == Op::Move,
        0 <= s.errors_begun <= s.errors.len(),
        forall|i: int|
            0 <= i < s.dests.len() ==> s.srcs.take(s.next).contains((#[trigger] s.dests[i]).0),
    ensures
        begin(RunView { dests: s.dests.push((origin(s), d)), ..s }).dests == s.dests.push(
            (s.srcs[s.next - 1], d),
        ),
{
    let v = RunView { dests: s.dests.push((origin(s), d)), ..s };
    assert forall|i: int| 0 <= i < v.dests.len() implies v.srcs.take(v.next).contains(
        (#[trigger] v.dests[i]).0,
    ) by {
        if i < s.dests.len() {
            assert(v.dests[i] == s.dests[i]);
        } else {
            assert(s.srcs.take(s.next)[s.next - 1] == origin(s));
        }
    }
    lemma_begin(v);
}

/// A piece of work that fails is listed with what failed: an entry below a
/// directory under its own path, a source under the source; and the run goes on
/// behind it.
pub proof fn failures_are_listed(s: RunView, m: String)
    requires
        consistent(s),
        s.phase == Phase::OpenFile || s.phase == Phase::CopyChunk || s.phase == Phase::CloseFile
            || s.phase == Phase::CopyLink || s.phase == Phase::MakeDir || s.phase == Phase::OpenDir
            || s.phase == Phase::RemoveDest || s.phase == Phase::Rename || s.phase
            == Phase::StatMoved || s.phase == Phase::RemoveSource || s.phase == Phase::StatSource
            && s.stage == Op::Copy,
    ensures
        ({
            let t = after(s, Event::Failed(m));
            &&& t.errors.len() == s.errors.len() + 1
            &&& t.errors.drop_last() == s.errors
            &&& t.errors.last().1 == "io: "@ + m@
            &&& s.frames.len() > 0 ==> t.errors.last().0 == s.src && t.phase == Phase::NextChild
                && t.frames == s.frames
            &&& s.frames.len() == 0 ==> t.errors.last().0 == s.srcs[s.next - 1] && (t.next > s.next
                || !active(t))
            &&& t.dests == s.dests
            &&& t.skipped == s.skipped
        }),
{
    let e = s.errors.push((origin(s), io_text(m@)));
    assert(e.drop_last() =~= s.errors);
    lemma_begin(RunView { errors: e, ..s });
    let f = s.errors.push((s.src, io_text(m@)));
    assert(f.drop_last() =~= s.errors);
}

/// A child that could not be read is listed under its directory, and the next
/// child is taken.
pub proof fn unreadable_children_are_listed(s: RunView, m: String)
    requires
        consistent(s),
        s.phase == Phase::NextChild,
    ensures
        after(s, Event::ChildFailed(m)).errors == s.errors.push(
            (s.frames[s.frames.len() - 1].0, m@),
        ),
        after(s, Event::ChildFailed(m)).phase == Phase::NextChild,
        after(s, Event::ChildFailed(m)).frames == s.frames,
{
}

/// A run that was cancelled takes no more children: it leaves the directory, and
/// what it copied of it is cut short.
pub proof fn a_cancelled_run_takes_no_more_children(s: RunView, name: Vec<u8>)
    requires
        consistent(s),
        s.phase == Phase::NextChild,
        s.cancelled,
    ensures
        ({
            let t = after(s, Event::Child(name));
            &&& t.dests == s.dests
            &&& t.errors == s.errors
            &&& s.frames.len() > 1 ==> t.phase == Phase::NextChild && t.frames
                == s.frames.drop_last() && t.cut
            &&& s.frames.len() == 1 ==> t.phase == Phase::ReportFinal
        }),
{
    let left = RunView {
        src: s.frames.last().0,
        dest: s.frames.last().1,
        frames: s.frames.drop_last(),
        cut: true,
        ..s
    };
    lemma_begin(left);
}

/// An entry below a directory that was written leads back to that directory, with
/// nothing recorded and nothing left.
pub proof fn a_written_child_leads_back(s: RunView)
    requires
        consistent(s),
        s.phase == Phase::ReportFile,
        s.frames.len() > 0,
    ensures
        ({
            let t = after(s, Event::Done);
            &&& t.phase == Phase::NextChild
            &&& t.frames == s.frames
            &&& t.errors == s.errors
            &&& t.dests == s.dests
            &&& t.passed == s.passed
            &&& t.cut == s.cut
            &&& t.src == s.frames[s.frames.len() - 1].0
            &&& t.dest == s.frames[s.frames.len() - 1].1
        }),
{
}

/// A move goes on even where its source could not be examined, and what was
/// renamed is examined, and counted where it is a directory.
pub proof fn what_was_renamed_is_counted(s: RunView, m: String, kind: EntryKind, n: u64)
    requires
        consistent(s),
    ensures
        s.phase == Phase::StatSource && s.stage == Op::Move ==> {
            let t = after(s, Event::Failed(m));
            t.phase == Phase::StatDest && t.errors == s.errors && t.src == s.src && t.dest == s.dest
        },
        s.phase == Phase::Rename ==> after(s, Event::Done).phase == Phase::StatMoved && after(
            s,
            Event::Done,
        ).dest == s.dest,
        s.phase == Phase::StatMoved && kind == EntryKind::Directory ==> after(
            s,
            Event::Meta(kind, n),
        ).phase == Phase::CountMoved,
        s.phase == Phase::StatMoved && kind != EntryKind::Directory ==> after(
            s,
            Event::Meta(kind, n),
        ).phase == Phase::ReportMoved,
        s.phase == Phase::CountMoved ==> after(s, Event::Counted(n, n)).phase == Phase::ReportMoved
            && after(s, Event::Failed(m)).phase == Phase::ReportMoved && after(
            s,
            Event::Failed(m),
        ).errors == s.errors,
        s.phase == Phase::ReportFinal ==> after(s, Event::Done).phase == Phase::Finished,
{
}

/// A run begins with nothing done, and is asked to handle all that it was given.
pub proof fn a_run_begins_with_nothing_done(
    srcs: Seq<Seq<u8>>,
    dest_dir: Seq<u8>,
    op: Op,
    cancelled: bool,
)
    ensures
        ({
            let s = initial(srcs, dest_dir, op, cancelled);
            &&& s.srcs == srcs
            &&& s.dest_dir == dest_dir
            &&& s.op == op
            &&& s.cancelled == cancelled
            &&& s.next == 0
            &&& s.files_done == 0
            &&& s.bytes_done == 0
            &&& s.skipped == 0
            &&& s.errors.len() == 0
            &&& s.dests.len() == 0
            &&& !s.stopped
        }),
{
}

/// A cancel is noticed once and for all, and changes nothing else.
pub proof fn a_cancel_is_noticed(s: RunView, cancelled: bool)
    ensures
        noticed(s, cancelled).cancelled <==> s.cancelled || cancelled,
        (RunView { cancelled: s.cancelled, ..noticed(s, cancelled) }) == s,
{
}

/// Every outcome of a piece of work is an answer to it, whatever it brings, and
/// nothing answers a run that is finished.
pub proof fn every_outcome_is_an_answer(
    e: Event,
    name: Vec<u8>,
    m: String,
    c: Conflict,
    kind: EntryKind,
    n: u64,
    taken: bool,
)
    ensures
        fits(Phase::NextChild, Event::Child(name)),
        fits(Phase::NextChild, Event::ChildFailed(m)),
        fits(Phase::NextChild, Event::NoMoreChildren),
        fits(Phase::Ask, Event::Decision(c)),
        fits(Phase::Probe, Event::Occupied(taken)),
        fits(Phase::StatSource, Event::Meta(kind, n)),
        fits(Phase::StatSource, Event::Failed(m)),
        fits(Phase::StatDest, Event::Meta(kind, n)),
        fits(Phase::StatDest, Event::Failed(m)),
        fits(Phase::CopyChunk, Event::Chunk(n)),
        fits(Phase::CopyChunk, Event::Failed(m)),
        fits(Phase::Rename, Event::Done),
        fits(Phase::Rename, Event::CrossDevice),
        fits(Phase::Rename, Event::Failed(m)),
        fits(Phase::CountMoved, Event::Counted(n, n)),
        fits(Phase::RemoveSource, Event::Done),
        fits(Phase::RemoveSource, Event::Failed(m)),
        !fits(Phase::Finished, e),
{
}

} // verus!
