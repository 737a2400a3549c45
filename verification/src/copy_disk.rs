//! What a run does to what is on the disk.
//!
//! The disk is taken as a tree without links between directories: a path is its
//! components, and nothing but the run changes the disk while it goes on.
use crate::copy_order::{at_source, lemma_moves_on, lemma_started, started};
use crate::copy_progress::Op;
use crate::copy_run::{beside, consistent, fits, noticed, origin, writes, Event, Phase, RunView};
use crate::file_ops::MAX_CANDIDATES;
use crate::keep_both::{creates_beside, keep_run, keeping_both, lemma_keeping_both};
use crate::unix_path::components;
use vstd::prelude::*;

verus! {

/// What stands at a path.
pub enum Node {
    Directory,
    Link(Seq<u8>),
    File(Seq<u8>),
}

/// Whether two disks have the same at a path.
pub open spec fn same_at(
    d: Map<Seq<Seq<u8>>, Node>,
    e: Map<Seq<Seq<u8>>, Node>,
    p: Seq<Seq<u8>>,
) -> bool {
    &&& d.contains_key(p) == e.contains_key(p)
    &&& d.contains_key(p) ==> d[p] == e[p]
}

/// Whether nothing stands at a path or below it.
pub open spec fn absent(d: Map<Seq<Seq<u8>>, Node>, top: Seq<Seq<u8>>) -> bool {
    forall|p: Seq<Seq<u8>>| top.is_prefix_of(p) ==> !#[trigger] d.contains_key(p)
}

/// Whether the disk `e` can come of the disk `d` by the work that a phase asks
/// for, where `r` is what came of it.
pub open spec fn worked(
    s: RunView,
    r: Event,
    d: Map<Seq<Seq<u8>>, Node>,
    e: Map<Seq<Seq<u8>>, Node>,
) -> bool {
    let src = components(s.src);
    let dest = components(s.dest);
    match s.phase {
        // A rename replaces what is at its destination.
        Phase::Rename => if r is Done {
            forall|p: Seq<Seq<u8>>|
                !src.is_prefix_of(p) && !dest.is_prefix_of(p) ==> #[trigger] same_at(d, e, p)
        } else {
            e == d
        },
        Phase::RemoveSource => forall|p: Seq<Seq<u8>>|
            !src.is_prefix_of(p) ==> #[trigger] same_at(d, e, p),
        Phase::RemoveDest => forall|p: Seq<Seq<u8>>|
            !dest.is_prefix_of(p) ==> #[trigger] same_at(d, e, p),
        // A file is created only where nothing is.
        Phase::OpenFile => if r is Done {
            &&& !d.contains_key(dest)
            &&& forall|p: Seq<Seq<u8>>| p != dest ==> #[trigger] same_at(d, e, p)
        } else {
            e == d
        },
        Phase::CopyLink => {
            &&& d.contains_key(dest) ==> e == d
            &&& forall|p: Seq<Seq<u8>>| p != dest ==> #[trigger] same_at(d, e, p)
        },
        // Directories are added, and whatever is there stays.
        Phase::MakeDir => forall|p: Seq<Seq<u8>>|
            d.contains_key(p) ==> #[trigger] same_at(d, e, p),
        Phase::CopyChunk | Phase::CloseFile | Phase::DropFile => forall|p: Seq<Seq<u8>>|
            p != dest ==> #[trigger] same_at(d, e, p),
        _ => e == d,
    }
}

/// Whether what a run is told of the disk is so: what could not be examined is
/// not there, and a candidate that is not occupied is free.
pub open spec fn truthful(s: RunView, r: Event, d: Map<Seq<Seq<u8>>, Node>) -> bool {
    &&& s.phase == Phase::StatDest && r is Failed ==> absent(d, components(s.dest))
    &&& s.phase == Phase::Probe && r == Event::Occupied(false) ==> absent(
        d,
        components(beside(s.dest, s.probe)),
    )
}

/// Whether an event says that the last candidate beside a destination is taken.
pub open spec fn exhausts(s: RunView, r: Event) -> bool {
    s.phase == Phase::Probe && r == Event::Occupied(true) && s.probe + 1 == MAX_CANDIDATES
}

/// Whether `disks` are the disks before, between and after the steps of a run
/// that keeps both.
pub open spec fn performed(
    s: RunView,
    trace: Seq<(Event, bool)>,
    disks: Seq<Map<Seq<Seq<u8>>, Node>>,
) -> bool
    decreases trace.len(),
{
    if trace.len() == 0 {
        disks.len() == 1
    } else {
        let before = trace.drop_last();
        let t = keep_run(s, before);
        let r = trace.last().0;
        &&& disks.len() == trace.len() + 1
        &&& performed(s, before, disks.drop_last())
        &&& fits(t.phase, r)
        &&& truthful(t, r, disks[disks.len() - 2])
        &&& !exhausts(t, r)
        &&& worked(t, r, disks[disks.len() - 2], disks.last())
    }
}

/// Whether a run has no business with what stands at a path: it stood there
/// before, and is no part of what is moved.
pub open spec fn foreign(
    srcs: Seq<Seq<u8>>,
    op: Op,
    d: Map<Seq<Seq<u8>>, Node>,
    p: Seq<Seq<u8>>,
) -> bool {
    &&& d.contains_key(p)
    &&& op == Op::Move ==> forall|i: int|
        0 <= i < srcs.len() ==> !components(#[trigger] srcs[i]).is_prefix_of(p)
}

/// What holds at every step: nothing foreign was changed, the file that is being
/// written is none of it, and a rename leads to where nothing is.
spec fn unharmed(
    s: RunView,
    d0: Map<Seq<Seq<u8>>, Node>,
    d: Map<Seq<Seq<u8>>, Node>,
) -> bool {
    &&& forall|p: Seq<Seq<u8>>| foreign(s.srcs, s.op, d0, p) ==> #[trigger] same_at(d0, d, p)
    &&& writes(s.phase) ==> !foreign(s.srcs, s.op, d0, components(s.dest))
    &&& s.phase == Phase::Rename ==> absent(d, components(s.dest))
}

#[verifier::spinoff_prover]
proof fn lemma_unharmed(
    s: RunView,
    r: Event,
    d0: Map<Seq<Seq<u8>>, Node>,
    d: Map<Seq<Seq<u8>>, Node>,
    e: Map<Seq<Seq<u8>>, Node>,
    t: RunView,
)
    requires
        consistent(s),
        at_source(s),
        s.phase != Phase::Ask,
        s.phase != Phase::RemoveDest,
        unharmed(s, d0, d),
        truthful(s, r, d),
        !exhausts(s, r),
        worked(s, r, d, e),
        t.srcs == s.srcs,
        t.op == s.op,
        creates_beside(s, r, t),
        writes(t.phase) ==> t.dest == s.dest && (writes(s.phase) || s.phase == Phase::OpenFile
            && r is Done),
    ensures
        unharmed(t, d0, e),
{
    assert forall|p: Seq<Seq<u8>>| foreign(t.srcs, t.op, d0, p) implies #[trigger] same_at(
        d0,
        e,
        p,
    ) by {
        assert(same_at(d0, d, p));
        if s.phase == Phase::Rename || s.phase == Phase::RemoveSource {
            assert(s.op == Op::Move);
            assert(s.src == origin(s));
            assert(!components(s.srcs[s.next - 1]).is_prefix_of(p));
            assert(same_at(d, e, p));
        } else {
            assert(same_at(d, e, p));
        }
    }
    if writes(t.phase) && !writes(s.phase) {
        let dest = components(s.dest);
        if foreign(s.srcs, s.op, d0, dest) {
            assert(same_at(d0, d, dest));
        }
    }
}

proof fn lemma_kept(u: RunView, r: Event)
    requires
        consistent(u),
        at_source(u),
        fits(u.phase, r),
        u.phase != Phase::Ask,
        u.phase != Phase::RemoveDest,
    ensures
        keeping_both(u, r).srcs == u.srcs,
        keeping_both(u, r).op == u.op,
        at_source(keeping_both(u, r)),
{
    lemma_moves_on(u, r);
    lemma_keeping_both(u, r);
}

#[verifier::rlimit(100)]
#[verifier::spinoff_prover]
proof fn lemma_step_unharmed(
    t: RunView,
    last: (Event, bool),
    d0: Map<Seq<Seq<u8>>, Node>,
    d: Map<Seq<Seq<u8>>, Node>,
    e: Map<Seq<Seq<u8>>, Node>,
) -> (v: RunView)
    requires
        consistent(t),
        at_source(t),
        t.phase != Phase::Ask,
        t.phase != Phase::RemoveDest,
        unharmed(t, d0, d),
        fits(t.phase, last.0),
        truthful(t, last.0, d),
        !exhausts(t, last.0),
        worked(t, last.0, d, e),
    ensures
        v == keeping_both(noticed(t, last.1), last.0),
        consistent(v),
        at_source(v),
        v.srcs == t.srcs,
        v.op == t.op,
        v.phase != Phase::Ask,
        v.phase != Phase::RemoveDest,
        unharmed(v, d0, e),
{
    let u = noticed(t, last.1);
    lemma_noticed(t, last.1);
    lemma_keeping_both(u, last.0);
    lemma_kept(u, last.0);
    let v = keeping_both(u, last.0);
    lemma_unharmed(u, last.0, d0, d, e, v);
    v
}

proof fn lemma_noticed(t: RunView, cancelled: bool)
    requires
        consistent(t),
        at_source(t),
    ensures
        consistent(noticed(t, cancelled)),
        at_source(noticed(t, cancelled)),
{
}

proof fn lemma_run_unharmed(
    s: RunView,
    trace: Seq<(Event, bool)>,
    disks: Seq<Map<Seq<Seq<u8>>, Node>>,
) -> (v: RunView)
    requires
        consistent(s),
        at_source(s),
        s.phase == Phase::Poll || s.phase == Phase::ReportFinal,
        performed(s, trace, disks),
    ensures
        v == keep_run(s, trace),
        consistent(v),
        at_source(v),
        v.srcs == s.srcs,
        v.op == s.op,
        v.phase != Phase::Ask,
        v.phase != Phase::RemoveDest,
        unharmed(v, disks[0], disks.last()),
    decreases trace.len(),
{
    if trace.len() == 0 {
        s
    } else {
        let t = lemma_run_unharmed(s, trace.drop_last(), disks.drop_last());
        assert(disks.drop_last().last() == disks[disks.len() - 2]);
        assert(disks.drop_last()[0] == disks[0]);
        lemma_step_unharmed(t, trace.last(), disks[0], disks[disks.len() - 2], disks.last())
    }
}

/// A whole run that keeps both leaves all that was on the disk as it was, but for
/// what it moves: whatever stood there before stands there afterwards with the
/// same content. Left aside is a run that finds every candidate beside a name
/// taken.
pub proof fn keeping_both_keeps_what_was_there(
    srcs: Seq<Seq<u8>>,
    dest_dir: Seq<u8>,
    op: Op,
    cancelled: bool,
    trace: Seq<(Event, bool)>,
    disks: Seq<Map<Seq<Seq<u8>>, Node>>,
    p: Seq<Seq<u8>>,
)
    requires
        performed(started(srcs, dest_dir, op, cancelled), trace, disks),
        foreign(srcs, op, disks[0], p),
    ensures
        same_at(disks[0], disks.last(), p),
        disks.last().contains_key(p),
{
    lemma_started(srcs, dest_dir, op, cancelled);
    let v = lemma_run_unharmed(started(srcs, dest_dir, op, cancelled), trace, disks);
}

} // verus!
