//! Where a run of copying or moving writes: nowhere but below its destination.
use crate::copy_run::{
    after, begin, beside, beside_name, consistent, finish, fits, initial, leave_dir, passed_over,
    EntryEnd, Event, Phase, RunView,
};
use crate::copy_progress::Op;
use crate::file_ops::{candidate_name, valid_name};
use crate::names::{candidates_are_valid, lemma_file_name_is_plain, valid_name_is_plain};
use crate::unix_path::{components, file_name, joined, joined_entry, parent, plain_name};
use vstd::prelude::*;
use vstd::utf8::*;

verus! {

/// Whether a path is an entry of a directory, or of one below it.
pub open spec fn placed(dir: Seq<u8>, p: Seq<u8>) -> bool {
    exists|d: Seq<u8>, n: Seq<u8>| is_entry(dir, p, d, n)
}

/// Whether a path is the entry `n` of `d`, which is `dir` or lies below it.
pub open spec fn is_entry(dir: Seq<u8>, p: Seq<u8>, d: Seq<u8>, n: Seq<u8>) -> bool {
    p == joined(d, n) && plain_name(n) && components(dir).is_prefix_of(components(d))
}

/// Whether a run still has a source at hand.
pub open spec fn active(s: RunView) -> bool {
    s.phase != Phase::ReportFinal && s.phase != Phase::Finished
}

/// Whether all that a run wrote or is about to write lies below its
/// destination.
pub open spec fn inside(s: RunView) -> bool {
    &&& forall|i: int| 0 <= i < s.dests.len() ==> placed(s.dest_dir, (#[trigger] s.dests[i]).1)
    &&& active(s) ==> placed(s.dest_dir, s.dest) && placed(s.dest_dir, s.target)
    &&& active(s) ==> forall|i: int|
        0 <= i < s.frames.len() ==> placed(s.dest_dir, (#[trigger] s.frames[i]).1)
}

proof fn lemma_entry(dir: Seq<u8>, d: Seq<u8>, n: Seq<u8>)
    requires
        plain_name(n),
        components(dir).is_prefix_of(components(d)),
    ensures
        placed(dir, joined(d, n)),
{
    assert(is_entry(dir, joined(d, n), d, n));
}

proof fn lemma_child(dir: Seq<u8>, p: Seq<u8>, n: Seq<u8>)
    requires
        placed(dir, p),
        plain_name(n),
    ensures
        placed(dir, joined(p, n)),
{
    let (d, m) = choose|d: Seq<u8>, m: Seq<u8>| is_entry(dir, p, d, m);
    joined_entry(d, m);
    assert(components(dir) =~= components(p).take(components(dir).len() as int));
    lemma_entry(dir, p, n);
}

proof fn lemma_beside(dir: Seq<u8>, p: Seq<u8>, k: nat)
    requires
        placed(dir, p),
        valid_name(beside_name(p)),
    ensures
        placed(dir, beside(p, k)),
{
    let (d, m) = choose|d: Seq<u8>, m: Seq<u8>| is_entry(dir, p, d, m);
    joined_entry(d, m);
    candidates_are_valid(beside_name(p), k);
    valid_name_is_plain(candidate_name(beside_name(p), k));
    lemma_entry(dir, parent(p)->0, encode_utf8(candidate_name(beside_name(p), k)));
}

proof fn lemma_begin_inside(s: RunView)
    requires
        forall|i: int| 0 <= i < s.dests.len() ==> placed(s.dest_dir, (#[trigger] s.dests[i]).1),
    ensures
        inside(begin(s)),
        begin(s).dest_dir == s.dest_dir,
    decreases s.srcs.len() - s.next,
{
    if s.next < s.srcs.len() && !s.cancelled {
        match file_name(s.srcs[s.next]) {
            None => {
                lemma_begin_inside(RunView { next: s.next + 1, ..s });
            },
            Some(n) => {
                lemma_file_name_is_plain(s.srcs[s.next]);
                lemma_entry(s.dest_dir, s.dest_dir, n);
            },
        }
    }
}

proof fn lemma_finish_inside(s: RunView, r: EntryEnd)
    requires
        inside(s),
        active(s),
    ensures
        inside(finish(s, r)),
        finish(s, r).dest_dir == s.dest_dir,
{
    if s.frames.len() > 0 {
        assert(placed(s.dest_dir, s.frames[s.frames.len() - 1].1));
    } else {
        lemma_begin_inside(s);
        let with_error = RunView {
            errors: s.errors.push(
                (
                    crate::copy_run::origin(s),
                    crate::copy_run::io_text(r->Failed_0),
                ),
            ),
            ..s
        };
        lemma_begin_inside(with_error);
        lemma_begin_inside(
            RunView { dests: s.dests.push((crate::copy_run::origin(s), s.dest)), ..s },
        );
    }
}

proof fn lemma_leave_inside(s: RunView)
    requires
        inside(s),
        active(s),
        s.frames.len() > 0,
    ensures
        inside(leave_dir(s)),
        leave_dir(s).dest_dir == s.dest_dir,
{
    assert(placed(s.dest_dir, s.frames[s.frames.len() - 1].1));
    let t = RunView {
        src: s.frames.last().0,
        dest: s.frames.last().1,
        frames: s.frames.drop_last(),
        ..s
    };
    lemma_finish_inside(t, EntryEnd::Written);
}

/// A run writes nowhere but below its destination, and goes on to do so after
/// every event. A child is named as directories name their entries; where a
/// free name is looked for, the text of the name is a valid name itself.
#[verifier::rlimit(100)]
#[verifier::spinoff_prover]
pub proof fn runs_stay_inside_their_destination(s: RunView, e: Event)
    requires
        consistent(s),
        fits(s.phase, e),
        inside(s),
        e matches Event::Child(n) ==> plain_name(n@),
        s.phase == Phase::Probe ==> valid_name(beside_name(s.dest)),
    ensures
        inside(after(s, e)),
        after(s, e).dest_dir == s.dest_dir,
{
    match s.phase {
        Phase::Poll
        | Phase::StatSource
        | Phase::CopyLink
        | Phase::MakeDir
        | Phase::OpenDir
        | Phase::OpenFile
        | Phase::CopyChunk
        | Phase::CloseFile
        | Phase::DropFile
        | Phase::ReportFile
        | Phase::ReportMoved
        | Phase::Rename
        | Phase::StatMoved
        | Phase::RemoveDest => {
            lemma_finish_inside(s, EntryEnd::Cut);
            lemma_finish_inside(s, EntryEnd::Written);
            if let Event::Failed(m) = e {
                lemma_finish_inside(s, EntryEnd::Failed(m@));
            }
            if s.phase == Phase::OpenDir && e is Done {
                let t = after(s, e);
                assert forall|i: int| 0 <= i < t.frames.len() implies placed(
                    t.dest_dir,
                    (#[trigger] t.frames[i]).1,
                ) by {
                    if i < s.frames.len() {
                        assert(t.frames[i] == s.frames[i]);
                    }
                }
            }
        },
        Phase::Ask => {
            lemma_finish_inside(passed_over(s), EntryEnd::Skipped);
            lemma_finish_inside(RunView { cancelled: true, ..s }, EntryEnd::Cut);
        },
        Phase::Probe => {
            lemma_beside(s.dest_dir, s.dest, s.probe);
            lemma_beside(s.dest_dir, s.dest, 0);
        },
        Phase::NextChild => {
            lemma_leave_inside(s);
            lemma_leave_inside(RunView { cut: true, ..s });
            assert(placed(s.dest_dir, s.frames[s.frames.len() - 1].1));
            if let Event::Child(n) = e {
                lemma_child(s.dest_dir, s.frames.last().1, n@);
            }
        },
        Phase::RemoveSource => {
            lemma_begin_inside(
                RunView { dests: s.dests.push((crate::copy_run::origin(s), s.target)), ..s },
            );
            if let Event::Failed(m) = e {
                lemma_begin_inside(
                    RunView {
                        errors: s.errors.push(
                            (crate::copy_run::origin(s), crate::copy_run::io_text(m@)),
                        ),
                        ..s
                    },
                );
            }
        },
        _ => {},
    }
}

/// A run begins inside its destination.
pub proof fn runs_begin_inside_their_destination(
    srcs: Seq<Seq<u8>>,
    dest_dir: Seq<u8>,
    op: Op,
    cancelled: bool,
)
    ensures
        inside(begin(initial(srcs, dest_dir, op, cancelled))),
{
    lemma_begin_inside(initial(srcs, dest_dir, op, cancelled));
}

/// What is placed in a directory has the directory's components before its own.
pub proof fn placed_is_below(dir: Seq<u8>, p: Seq<u8>)
    requires
        placed(dir, p),
    ensures
        components(dir).is_prefix_of(components(p)),
        components(dir).len() < components(p).len(),
        file_name(p) is Some,
{
    let (d, m) = choose|d: Seq<u8>, m: Seq<u8>| is_entry(dir, p, d, m);
    joined_entry(d, m);
    assert(components(dir) =~= components(p).take(components(dir).len() as int));
}

} // verus!
