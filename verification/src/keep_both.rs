//! A run that never asks: where something is in the way, both are kept.
use crate::copy_progress::{Conflict, EntryKind, Op};
use crate::copy_run::{
    after, beside, consistent, creates, fits, has_room, keeps_both, lemma_after_consistent,
    lemma_begin, lemma_ended, lemma_step, lemma_trace, lemma_written, noticed, origin, processed,
    run_of, trace_fits, writes, CopyRun, EntryEnd, Event, Phase, RunView,
};
use crate::file_ops::MAX_CANDIDATES;
use vstd::prelude::*;

verus! {

/// The run after an event, where a conflict is answered at once by keeping both.
pub open spec fn keeping_both(s: RunView, e: Event) -> RunView {
    let t = after(s, e);
    if t.phase == Phase::Ask {
        after(t, Event::Decision(Conflict::KeepBoth))
    } else {
        t
    }
}

/// Whether what a step creates is created where nothing is: at the destination
/// where nothing was found there, or at the candidate beside it that was found
/// free. The one exception is a name of which all candidates are taken.
pub open spec fn creates_beside(s: RunView, e: Event, t: RunView) -> bool {
    creates(t.phase) ==> {
        ||| s.phase == Phase::StatDest && e is Failed && t.dest == s.dest
        ||| s.phase == Phase::Probe && e == Event::Occupied(false) && t.dest == beside(
            s.dest,
            s.probe,
        )
        ||| s.phase == Phase::Probe && e == Event::Occupied(true) && s.probe + 1 == MAX_CANDIDATES
    }
}

pub(crate) proof fn lemma_keeping_both(s: RunView, e: Event)
    requires
        consistent(s),
        fits(s.phase, e),
        s.phase != Phase::Ask,
        s.phase != Phase::RemoveDest,
    ensures
        consistent(keeping_both(s, e)),
        keeping_both(s, e).phase != Phase::Ask,
        keeping_both(s, e).phase != Phase::RemoveDest,
        creates_beside(s, e, keeping_both(s, e)),
        writes(keeping_both(s, e).phase) ==> keeping_both(s, e).dest == s.dest && (writes(s.phase)
            || s.phase == Phase::OpenFile && e is Done),
        after(s, e).phase == Phase::Ask ==> {
            &&& s.phase == Phase::StatDest
            &&& after(s, e) == (RunView { phase: Phase::Ask, ..s })
        },
{
    lemma_after_consistent(s, e);
    lemma_step(s, e);
    lemma_written(s, e);
}

impl CopyRun {
    /// Takes the result of the work that the phase asked for, as
    /// [`CopyRun::step`] does, and answers a conflict at once by keeping both.
    /// Such a run removes nothing that exists at a destination, and creates
    /// nothing where something is.
    #[verifier::rlimit(100)]
    #[verifier::spinoff_prover]
    pub fn step_keeping_both(&mut self, e: Event, cancelled: bool)
        requires
            consistent(old(self)@),
            fits(old(self).phase, e),
            has_room(old(self)@, e),
            old(self).phase != Phase::Ask,
            old(self).phase != Phase::RemoveDest,
        ensures
            final(self)@ == keeping_both(noticed(old(self)@, cancelled), e),
            consistent(final(self)@),
            final(self).totals == old(self).totals,
            final(self).phase != Phase::Ask,
            final(self).phase != Phase::RemoveDest,
            creates_beside(old(self)@, e, final(self)@),
            writes(final(self).phase) ==> final(self).dest@ == old(self).dest@ && (writes(
                old(self).phase,
            ) || old(self).phase == Phase::OpenFile && e is Done),
    {
        let ghost s = noticed(self@, cancelled);
        proof {
            assert(consistent(s));
            lemma_keeping_both(s, e);
        }
        self.step(e, cancelled);
        if self.phase == Phase::Ask {
            assert(noticed(self@, false) =~= self@);
            assert(has_room(self@, Event::Decision(Conflict::KeepBoth)));
            self.step(Event::Decision(Conflict::KeepBoth), false);
        }
    }
}

/// Whether a trace keeps both and finds the first `k` candidates taken and the
/// next one free.
pub open spec fn probes(trace: Seq<(Event, bool)>, k: nat) -> bool {
    &&& trace.len() == k + 2
    &&& trace[0].0 == Event::Decision(Conflict::KeepBoth)
    &&& forall|i: int| 1 <= i <= k ==> (#[trigger] trace[i]).0 == Event::Occupied(true)
    &&& trace.last().0 == Event::Occupied(false)
}

/// Whether two states name the same source, with the same records.
pub open spec fn same_source(s: RunView, t: RunView) -> bool {
    &&& t.srcs == s.srcs
    &&& t.next == s.next
    &&& t.dests == s.dests
    &&& t.errors == s.errors
    &&& t.errors_begun == s.errors_begun
    &&& t.frames == s.frames
    &&& t.stage == s.stage
    &&& t.kind == s.kind
    &&& t.by_copying == s.by_copying
    &&& t.cut == s.cut
    &&& t.src == s.src
}

proof fn lemma_probing(s: RunView, trace: Seq<(Event, bool)>, k: nat)
    requires
        s.phase == Phase::Ask,
        k < MAX_CANDIDATES,
        trace.len() == k + 1,
        trace[0].0 == Event::Decision(Conflict::KeepBoth),
        forall|i: int| 1 <= i <= k ==> (#[trigger] trace[i]).0 == Event::Occupied(true),
    ensures
        run_of(s, trace).phase == Phase::Probe,
        run_of(s, trace).probe == k,
        run_of(s, trace).dest == s.dest,
        same_source(s, run_of(s, trace)),
        trace_fits(s, trace),
    decreases k,
{
    let before = trace.drop_last();
    if k == 0 {
        assert(before =~= Seq::empty());
        assert(run_of(s, before) == s);
        assert(trace_fits(s, before));
    } else {
        lemma_probing(s, before, (k - 1) as nat);
        assert(trace.last().0 == trace[k as int].0);
    }
}

/// Keeping both takes the first free name: where the first candidates are taken
/// and the next one is free, that one becomes the destination.
pub proof fn the_first_free_name_is_taken(s: RunView, trace: Seq<(Event, bool)>, k: nat)
    requires
        consistent(s),
        s.phase == Phase::Ask,
        k < MAX_CANDIDATES,
        probes(trace, k),
    ensures
        trace_fits(s, trace),
        run_of(s, trace).dest == beside(s.dest, k),
        same_source(s, run_of(s, trace)),
        creates(run_of(s, trace).phase) || run_of(s, trace).phase == Phase::MakeDir,
        s.stage == Op::Copy && s.kind == EntryKind::Other ==> run_of(s, trace).phase
            == Phase::OpenFile,
{
    let before = trace.drop_last();
    assert forall|i: int| 1 <= i <= k implies (#[trigger] before[i]).0 == Event::Occupied(true) by {
        assert(before[i] == trace[i]);
    }
    lemma_probing(s, before, k);
}

/// Whether a trace goes on with the file that is open, up to the report of it.
pub open spec fn stays_with_the_file(s: RunView, trace: Seq<(Event, bool)>) -> bool
    decreases trace.len(),
{
    trace.len() == 0 || stays_with_the_file(s, trace.drop_last()) && (writes(
        run_of(s, trace).phase,
    ) || run_of(s, trace).phase == Phase::ReportFile)
}

proof fn lemma_written_on(s: RunView, e: Event)
    requires
        consistent(s),
        fits(s.phase, e),
        s.phase == Phase::OpenFile || writes(s.phase) || s.phase == Phase::ReportFile,
        writes(after(s, e).phase) || after(s, e).phase == Phase::ReportFile,
    ensures
        after(s, e).dest == s.dest,
        same_source(s, after(s, e)),
{
    lemma_ended(s, EntryEnd::Cut);
    lemma_ended(s, EntryEnd::Written);
    if e is Failed {
        lemma_ended(s, EntryEnd::Failed(e->Failed_0@));
    }
}

proof fn lemma_stays(s: RunView, trace: Seq<(Event, bool)>)
    requires
        consistent(s),
        s.phase == Phase::OpenFile,
        trace_fits(s, trace),
        stays_with_the_file(s, trace),
    ensures
        consistent(run_of(s, trace)),
        run_of(s, trace).dest == s.dest,
        same_source(s, run_of(s, trace)),
        trace.len() == 0 || writes(run_of(s, trace).phase) || run_of(s, trace).phase
            == Phase::ReportFile,
    decreases trace.len(),
{
    if trace.len() > 0 {
        lemma_stays(s, trace.drop_last());
        let u = noticed(run_of(s, trace.drop_last()), trace.last().1);
        assert(consistent(u));
        lemma_after_consistent(u, trace.last().0);
        lemma_written_on(u, trace.last().0);
    }
}

/// A top-level file whose name is taken is written under the first free name
/// beside it, and recorded under that name once it is written.
pub proof fn a_kept_file_is_recorded_under_its_free_name(
    s: RunView,
    probing: Seq<(Event, bool)>,
    k: nat,
    writing: Seq<(Event, bool)>,
    cancelled: bool,
)
    requires
        consistent(s),
        s.phase == Phase::Ask,
        s.frames.len() == 0,
        s.stage == Op::Copy,
        s.kind == EntryKind::Other,
        !s.by_copying,
        processed(s),
        k < MAX_CANDIDATES,
        probes(probing, k),
        trace_fits(run_of(s, probing), writing),
        stays_with_the_file(run_of(s, probing), writing),
        run_of(run_of(s, probing), writing).phase == Phase::ReportFile,
    ensures
        ({
            let u = run_of(run_of(s, probing), writing);
            &&& u.dest == beside(s.dest, k)
            &&& after(noticed(u, cancelled), Event::Done).dests == s.dests.push(
                (origin(s), beside(s.dest, k)),
            )
        }),
{
    the_first_free_name_is_taken(s, probing, k);
    lemma_trace(s, probing);
    let t = run_of(s, probing);
    lemma_stays(t, writing);
    lemma_recorded(s, noticed(run_of(t, writing), cancelled));
}

/// A top-level file that was written is recorded.
proof fn lemma_recorded(s: RunView, u: RunView)
    requires
        consistent(u),
        same_source(s, u),
        u.phase == Phase::ReportFile,
        s.frames.len() == 0,
        !s.by_copying,
        processed(s),
    ensures
        after(u, Event::Done).dests == s.dests.push((origin(s), u.dest)),
{
    let v = RunView { dests: u.dests.push((origin(u), u.dest)), ..u };
    assert forall|i: int| 0 <= i < v.dests.len() implies v.srcs.take(v.next).contains(
        (#[trigger] v.dests[i]).0,
    ) by {
        if i < u.dests.len() {
            assert(v.dests[i] == u.dests[i]);
        } else {
            assert(u.srcs.take(u.next)[u.next - 1] == origin(u));
        }
    }
    lemma_begin(v);
}

/// The run after the events of a trace, where every conflict is answered at once
/// by keeping both.
pub open spec fn keep_run(s: RunView, trace: Seq<(Event, bool)>) -> RunView
    decreases trace.len(),
{
    if trace.len() == 0 {
        s
    } else {
        keeping_both(noticed(keep_run(s, trace.drop_last()), trace.last().1), trace.last().0)
    }
}

/// Whether every event of a trace answers the phase it meets.
pub open spec fn keep_run_fits(s: RunView, trace: Seq<(Event, bool)>) -> bool
    decreases trace.len(),
{
    trace.len() == 0 || keep_run_fits(s, trace.drop_last()) && fits(
        keep_run(s, trace.drop_last()).phase,
        trace.last().0,
    )
}

/// A trace with one more event of a run at `t`, and with the answer to keep both
/// where a conflict comes of it.
pub open spec fn answered(
    before: Seq<(Event, bool)>,
    t: RunView,
    last: (Event, bool),
) -> Seq<(Event, bool)> {
    if after(noticed(t, last.1), last.0).phase == Phase::Ask {
        before.push(last).push((Event::Decision(Conflict::KeepBoth), false))
    } else {
        before.push(last)
    }
}

/// A trace with the answers that keeping both gives on the way.
pub open spec fn with_answers(s: RunView, trace: Seq<(Event, bool)>) -> Seq<(Event, bool)>
    decreases trace.len(),
{
    if trace.len() == 0 {
        trace
    } else {
        let rest = trace.drop_last();
        answered(with_answers(s, rest), keep_run(s, rest), trace.last())
    }
}

/// A run that never asks comes out as one that asks and is always answered to
/// keep both.
pub proof fn never_asking_is_answering_keep_both(s: RunView, trace: Seq<(Event, bool)>)
    requires
        consistent(s),
        s.phase != Phase::Ask,
        s.phase != Phase::RemoveDest,
        keep_run_fits(s, trace),
    ensures
        trace_fits(s, with_answers(s, trace)),
        keeps_both(with_answers(s, trace)),
        run_of(s, with_answers(s, trace)) == keep_run(s, trace),
        consistent(keep_run(s, trace)),
        keep_run(s, trace).phase != Phase::Ask,
        keep_run(s, trace).phase != Phase::RemoveDest,
{
    let (w, v) = lemma_answering(s, trace);
}

/// The trace with the answers, and the run after it.
#[verifier::spinoff_prover]
proof fn lemma_answering(s: RunView, trace: Seq<(Event, bool)>) -> (r: (
    Seq<(Event, bool)>,
    RunView,
))
    requires
        consistent(s),
        s.phase != Phase::Ask,
        s.phase != Phase::RemoveDest,
        keep_run_fits(s, trace),
    ensures
        r.0 == with_answers(s, trace),
        r.1 == keep_run(s, trace),
        trace_fits(s, r.0),
        keeps_both(r.0),
        run_of(s, r.0) == r.1,
        consistent(r.1),
        r.1.phase != Phase::Ask,
        r.1.phase != Phase::RemoveDest,
    decreases trace.len(),
{
    if trace.len() == 0 {
        (trace, s)
    } else {
        let (w, t) = lemma_answering(s, trace.drop_last());
        lemma_answered(s, w, t, trace.last())
    }
}

#[verifier::rlimit(100)]
#[verifier::spinoff_prover]
proof fn lemma_answered(
    s: RunView,
    before: Seq<(Event, bool)>,
    t: RunView,
    last: (Event, bool),
) -> (r: (Seq<(Event, bool)>, RunView))
    requires
        t == run_of(s, before),
        consistent(t),
        t.phase != Phase::Ask,
        t.phase != Phase::RemoveDest,
        fits(t.phase, last.0),
        trace_fits(s, before),
        keeps_both(before),
    ensures
        r.0 == answered(before, t, last),
        r.1 == keeping_both(noticed(t, last.1), last.0),
        trace_fits(s, r.0),
        keeps_both(r.0),
        run_of(s, r.0) == r.1,
        consistent(r.1),
        r.1.phase != Phase::Ask,
        r.1.phase != Phase::RemoveDest,
{
    assert(consistent(noticed(t, last.1)));
    lemma_keeping_both(noticed(t, last.1), last.0);
    lemma_one_more(s, before, last);
    if answered(before, t, last).len() == before.len() + 2 {
        lemma_one_more(s, before.push(last), (Event::Decision(Conflict::KeepBoth), false));
    }
    (answered(before, t, last), keeping_both(noticed(t, last.1), last.0))
}

#[verifier::spinoff_prover]
proof fn lemma_one_more(s: RunView, before: Seq<(Event, bool)>, last: (Event, bool))
    requires
        trace_fits(s, before),
        keeps_both(before),
        fits(run_of(s, before).phase, last.0),
        last.0 is Decision ==> last.0 == Event::Decision(Conflict::KeepBoth),
    ensures
        trace_fits(s, before.push(last)),
        keeps_both(before.push(last)),
        run_of(s, before.push(last)) == after(noticed(run_of(s, before), last.1), last.0),
        !last.1 ==> run_of(s, before.push(last)) == after(run_of(s, before), last.0),
{
    let once = before.push(last);
    assert(once.drop_last() =~= before);
    assert forall|i: int| 0 <= i < once.len() && (#[trigger] once[i]).0 is Decision implies once[i].0
        == Event::Decision(Conflict::KeepBoth) by {
        if i < before.len() {
            assert(once[i] == before[i]);
        }
    }
    if !last.1 {
        assert(noticed(run_of(s, before), last.1) =~= run_of(s, before));
    }
}

} // verus!
