//! What becomes of the children of a directory that is copied: each of them is
//! written, or skipped at the user's request, before the directory counts as
//! copied.
use crate::copy_laws::active;
use crate::copy_progress::Conflict;
use crate::copy_run::{
    after, begin, consistent, finish, fits, io_text, lemma_after_consistent, lemma_step, noticed,
    origin, passed_over, run_of, trace_fits, EntryEnd, Event, Phase, RunView,
};
use crate::unix_path::{file_name, joined};
use vstd::prelude::*;

verus! {

/// Whether the `i`-th event of a trace tells a run of the child `x` of the
/// directory that is open.
pub open spec fn told_of(s: RunView, trace: Seq<(Event, bool)>, i: int, x: Seq<u8>) -> bool {
    let t = run_of(s, trace.take(i));
    &&& 0 <= i < trace.len()
    &&& t.phase == Phase::NextChild
    &&& trace[i].0 matches Event::Child(name) && x == joined(t.frames.last().0, name@)
}

/// Whether an event ends the writing of the entry at hand, or says that the user
/// wants it skipped: a file is closed, a link is made, a directory is made and
/// opened.
pub open spec fn settles(t: RunView, e: Event) -> bool {
    ||| t.phase == Phase::CloseFile && e is Done
    ||| t.phase == Phase::CopyLink && e is Done
    ||| t.phase == Phase::OpenDir && e is Done
    ||| t.phase == Phase::Ask && e == Event::Decision(Conflict::Skip)
}

/// Whether the entry `x` was settled at the `j`-th event of a trace.
pub open spec fn settled_at(s: RunView, trace: Seq<(Event, bool)>, j: int, x: Seq<u8>) -> bool {
    let t = run_of(s, trace.take(j));
    0 <= j < trace.len() && t.src == x && settles(t, trace[j].0)
}

/// Whether the entry `x` was settled after the `i`-th event of a trace.
pub open spec fn settled_after(s: RunView, trace: Seq<(Event, bool)>, i: int, x: Seq<u8>) -> bool {
    exists|j: int| i < j && #[trigger] settled_at(s, trace, j, x)
}

/// Whether something of the source at hand failed or was left out.
pub open spec fn marred(t: RunView) -> bool {
    t.errors.len() > t.errors_begun || t.cut
}

/// Whether a run is at work on an entry that is not settled yet.
pub open spec fn at_work(p: Phase) -> bool {
    p == Phase::Poll || p == Phase::StatSource || p == Phase::StatDest || p == Phase::Ask || p
        == Phase::Probe || p == Phase::RemoveDest || p == Phase::CopyLink || p == Phase::MakeDir
        || p == Phase::OpenDir || p == Phase::OpenFile || p == Phase::PollChunk || p
        == Phase::CopyChunk || p == Phase::ReportChunk || p == Phase::CloseFile || p
        == Phase::DropFile
}

/// Whether the entry `x` below a directory is the one that a run is at work on.
spec fn pending(t: RunView, x: Seq<u8>) -> bool {
    t.src == x && at_work(t.phase) && t.frames.len() > 0
}

#[verifier::rlimit(100)]
#[verifier::spinoff_prover]
proof fn lemma_pending(u: RunView, e: Event)
    requires
        consistent(u),
        fits(u.phase, e),
        at_work(u.phase),
        u.frames.len() > 0,
    ensures
        settles(u, e) || marred(after(u, e)) || pending(after(u, e), u.src),
        after(u, e).dests == u.dests,
        after(u, e).phase != Phase::RemoveSource,
{
}

proof fn lemma_begin_leaves(s: RunView)
    requires
        0 <= s.next <= s.srcs.len(),
    ensures
        begin(s).next > s.next || !active(begin(s)),
    decreases s.srcs.len() - s.next,
{
    if s.next < s.srcs.len() && !s.cancelled && file_name(s.srcs[s.next]) is None {
        lemma_begin_leaves(RunView { next: s.next + 1, ..s });
    }
}

proof fn lemma_finish_marks(s: RunView, r: EntryEnd)
    requires
        1 <= s.next <= s.srcs.len(),
        0 <= s.errors_begun <= s.errors.len(),
    ensures
        ({
            let v = finish(s, r);
            v.next > s.next || !active(v) || (v.errors_begun == s.errors_begun && v.errors.len()
                >= s.errors.len() && (s.cut ==> v.cut))
        }),
{
    if s.frames.len() == 0 {
        lemma_begin_leaves(s);
        lemma_begin_leaves(RunView { dests: s.dests.push((origin(s), s.dest)), ..s });
        if r is Failed {
            lemma_begin_leaves(
                RunView { errors: s.errors.push((origin(s), io_text(r->Failed_0))), ..s },
            );
        }
    }
}

#[verifier::rlimit(100)]
#[verifier::spinoff_prover]
proof fn lemma_marks(u: RunView, e: Event)
    requires
        consistent(u),
        fits(u.phase, e),
    ensures
        ({
            let v = after(u, e);
            v.next > u.next || !active(v) || (active(u) && (marred(u) ==> marred(v)))
        }),
{
    match u.phase {
        Phase::Ask => {
            lemma_finish_marks(passed_over(u), EntryEnd::Skipped);
            lemma_finish_marks(RunView { cancelled: true, ..u }, EntryEnd::Cut);
        },
        Phase::NextChild => {
            let left = RunView {
                src: u.frames.last().0,
                dest: u.frames.last().1,
                frames: u.frames.drop_last(),
                ..u
            };
            lemma_finish_marks(left, EntryEnd::Written);
            lemma_finish_marks(RunView { cut: true, ..left }, EntryEnd::Written);
        },
        Phase::RemoveSource => {
            lemma_begin_leaves(RunView { dests: u.dests.push((origin(u), u.target)), ..u });
            if e is Failed {
                lemma_begin_leaves(
                    RunView { errors: u.errors.push((origin(u), io_text(e->Failed_0@))), ..u },
                );
            }
        },
        Phase::ReportFinal | Phase::Finished => {},
        _ => {
            lemma_finish_marks(u, EntryEnd::Cut);
            lemma_finish_marks(u, EntryEnd::Written);
            if e is Failed {
                lemma_finish_marks(u, EntryEnd::Failed(e->Failed_0@));
            }
        },
    }
}

/// What a child that a run is told of becomes at once.
#[verifier::spinoff_prover]
proof fn lemma_told(u: RunView, name: Vec<u8>)
    requires
        consistent(u),
        u.phase == Phase::NextChild,
    ensures
        ({
            let v = after(u, Event::Child(name));
            ||| pending(v, joined(u.frames.last().0, name@))
            ||| marred(v)
            ||| v.next > u.next
            ||| !active(v)
        }),
{
    let left = RunView {
        src: u.frames.last().0,
        dest: u.frames.last().1,
        frames: u.frames.drop_last(),
        cut: true,
        ..u
    };
    lemma_begin_leaves(left);
    lemma_begin_leaves(RunView { dests: left.dests.push((origin(left), left.dest)), ..left });
}

/// One step: what is known of an entry before it holds after it too.
#[verifier::spinoff_prover]
proof fn lemma_one_step(t: RunView, last: (Event, bool), x: Seq<u8>) -> (v: RunView)
    requires
        consistent(t),
        fits(t.phase, last.0),
    ensures
        v == after(noticed(t, last.1), last.0),
        consistent(v),
        v.next >= t.next,
        active(v) && v.next == t.next ==> active(t),
        active(v) && v.next == t.next && marred(t) ==> marred(v),
        active(v) && v.next == t.next && pending(t, x) && !settles(t, last.0) ==> marred(v)
            || pending(v, x),
        t.phase == Phase::NextChild && active(v) && v.next == t.next ==> (last.0 matches
            Event::Child(name) ==> pending(v, joined(t.frames.last().0, name@)) || marred(v)),
{
    let u = noticed(t, last.1);
    assert(consistent(u));
    lemma_after_consistent(u, last.0);
    lemma_marks(u, last.0);
    lemma_step(u, last.0);
    if at_work(u.phase) && u.frames.len() > 0 {
        lemma_pending(u, last.0);
    }
    if u.phase == Phase::NextChild && last.0 is Child {
        lemma_told(u, last.0->Child_0);
    }
    after(u, last.0)
}

/// The trace up to an event does not depend on what comes behind it.
proof fn lemma_earlier(s: RunView, trace: Seq<(Event, bool)>, i: int, x: Seq<u8>)
    requires
        trace.len() > 0,
        0 <= i < trace.len() - 1,
    ensures
        told_of(s, trace, i, x) == told_of(s, trace.drop_last(), i, x),
        settled_at(s, trace, i, x) == settled_at(s, trace.drop_last(), i, x),
{
    assert(trace.drop_last().take(i) =~= trace.take(i));
    assert(trace.drop_last()[i] == trace[i]);
}

proof fn lemma_told_within(
    s: RunView,
    trace: Seq<(Event, bool)>,
    i: int,
    x: Seq<u8>,
) -> (t: RunView)
    requires
        consistent(s),
        trace_fits(s, trace),
        0 <= i < trace.len(),
        told_of(s, trace, i, x),
    ensures
        t == run_of(s, trace),
        consistent(t),
        t.next >= s.next,
        active(t) && t.next == s.next ==> settled_after(s, trace, i, x) || marred(t) || pending(
            t,
            x,
        ),
    decreases trace.len(),
{
    let rest = trace.drop_last();
    assert(trace.take(trace.len() - 1) =~= rest);
    if i == trace.len() - 1 {
        let before = lemma_run(s, rest);
        lemma_one_step(before, trace.last(), x)
    } else {
        lemma_earlier(s, trace, i, x);
        let before = lemma_told_within(s, rest, i, x);
        let t = lemma_one_step(before, trace.last(), x);
        if active(t) && t.next == s.next {
            if settled_after(s, rest, i, x) {
                let j = choose|j: int| i < j && #[trigger] settled_at(s, rest, j, x);
                lemma_earlier(s, trace, j, x);
                assert(settled_at(s, trace, j, x));
            } else if pending(before, x) && settles(before, trace.last().0) {
                assert(settled_at(s, trace, trace.len() - 1, x));
            }
        }
        t
    }
}

proof fn lemma_run(s: RunView, trace: Seq<(Event, bool)>) -> (t: RunView)
    requires
        consistent(s),
        trace_fits(s, trace),
    ensures
        t == run_of(s, trace),
        consistent(t),
        t.next >= s.next,
    decreases trace.len(),
{
    if trace.len() == 0 {
        s
    } else {
        let before = lemma_run(s, trace.drop_last());
        lemma_one_step(before, trace.last(), Seq::empty())
    }
}

/// A source counts as done only with all its children: where a run records its
/// source as a success, or goes on to remove it, every child that it was told of
/// since that source was begun was written in the meantime, or skipped at the
/// user's request, whatever its name.
pub proof fn every_child_is_settled_before_success(
    s: RunView,
    trace: Seq<(Event, bool)>,
    last: (Event, bool),
    i: int,
    x: Seq<u8>,
)
    requires
        consistent(s),
        trace_fits(s, trace),
        fits(run_of(s, trace).phase, last.0),
        active(run_of(s, trace)),
        run_of(s, trace).next == s.next,
        told_of(s, trace, i, x),
        ({
            let t = run_of(s, trace);
            let v = after(noticed(t, last.1), last.0);
            v.dests != t.dests || v.phase == Phase::RemoveSource && t.phase != Phase::RemoveSource
        }),
    ensures
        settled_after(s, trace, i, x),
{
    let t = lemma_told_within(s, trace, i, x);
    lemma_success_is_unmarred(t, last);
}

#[verifier::spinoff_prover]
proof fn lemma_success_is_unmarred(t: RunView, last: (Event, bool))
    requires
        consistent(t),
        fits(t.phase, last.0),
        ({
            let v = after(noticed(t, last.1), last.0);
            v.dests != t.dests || v.phase == Phase::RemoveSource && t.phase != Phase::RemoveSource
        }),
    ensures
        !marred(t),
        !(at_work(t.phase) && t.frames.len() > 0),
{
    let u = noticed(t, last.1);
    assert(consistent(u));
    lemma_step(u, last.0);
    if at_work(u.phase) && u.frames.len() > 0 {
        lemma_pending(u, last.0);
    }
}

} // verus!
