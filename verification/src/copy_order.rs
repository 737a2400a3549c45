//! In which order a run records what it wrote: that of its sources.
use crate::copy_laws::active;
use crate::copy_progress::Op;
use crate::copy_run::{
    after, begin, consistent, finish, fits, initial, io_text, lemma_after_consistent, lemma_begin,
    lemma_step, noticed, origin, passed_over, run_of, trace_fits, EntryEnd, Event, Phase, RunView,
};
use crate::unix_path::file_name;
use vstd::prelude::*;

verus! {

/// Whether the run is at its source: what is copied is the source at hand or lies
/// in a directory that was opened below it.
pub open spec fn at_source(s: RunView) -> bool {
    active(s) ==> if s.frames.len() == 0 {
        s.src == origin(s)
    } else {
        s.frames[0].0 == origin(s)
    }
}

/// How many of the sources can have been recorded.
pub open spec fn settled(s: RunView) -> int {
    if active(s) {
        s.next - 1
    } else {
        s.next
    }
}

/// What a step keeps of the sources: they stay, as does the operation, none is
/// begun again, and what is recorded is done with.
pub open spec fn moves_on(s: RunView, t: RunView) -> bool {
    &&& t.srcs == s.srcs
    &&& t.op == s.op
    &&& t.dest_dir == s.dest_dir
    &&& t.next >= s.next
    &&& t.next > s.next || !active(t) || t.dests == s.dests
    &&& at_source(t)
}

proof fn lemma_begin_moves_on(s: RunView)
    requires
        0 <= s.next <= s.srcs.len(),
    ensures
        begin(s).srcs == s.srcs,
        begin(s).op == s.op,
        begin(s).dest_dir == s.dest_dir,
        begin(s).next >= s.next,
        begin(s).next > s.next || !active(begin(s)),
        at_source(begin(s)),
        begin(s).dests == s.dests,
    decreases s.srcs.len() - s.next,
{
    if s.next < s.srcs.len() && !s.cancelled && file_name(s.srcs[s.next]) is None {
        lemma_begin_moves_on(RunView { next: s.next + 1, ..s });
    }
}

proof fn lemma_finish_moves_on(s: RunView, r: EntryEnd)
    requires
        1 <= s.next <= s.srcs.len(),
        if s.frames.len() == 0 {
            s.src == origin(s)
        } else {
            s.frames[0].0 == origin(s)
        },
    ensures
        moves_on(s, finish(s, r)),
{
    if s.frames.len() == 0 {
        lemma_begin_moves_on(s);
        lemma_begin_moves_on(RunView { dests: s.dests.push((origin(s), s.dest)), ..s });
        if r is Failed {
            lemma_begin_moves_on(
                RunView { errors: s.errors.push((origin(s), io_text(r->Failed_0))), ..s },
            );
        }
    }
}

#[verifier::rlimit(100)]
#[verifier::spinoff_prover]
pub(crate) proof fn lemma_moves_on(s: RunView, e: Event)
    requires
        consistent(s),
        fits(s.phase, e),
        at_source(s),
    ensures
        moves_on(s, after(s, e)),
{
    match s.phase {
        Phase::Ask => {
            lemma_finish_moves_on(passed_over(s), EntryEnd::Skipped);
            lemma_finish_moves_on(RunView { cancelled: true, ..s }, EntryEnd::Cut);
        },
        Phase::NextChild => {
            let left = RunView {
                src: s.frames.last().0,
                dest: s.frames.last().1,
                frames: s.frames.drop_last(),
                ..s
            };
            lemma_finish_moves_on(left, EntryEnd::Written);
            lemma_finish_moves_on(RunView { cut: true, ..left }, EntryEnd::Written);
        },
        Phase::RemoveSource => {
            lemma_begin_moves_on(RunView { dests: s.dests.push((origin(s), s.target)), ..s });
            if e is Failed {
                lemma_begin_moves_on(
                    RunView { errors: s.errors.push((origin(s), io_text(e->Failed_0@))), ..s },
                );
            }
        },
        Phase::ReportFinal | Phase::Finished => {},
        _ => {
            lemma_finish_moves_on(s, EntryEnd::Cut);
            lemma_finish_moves_on(s, EntryEnd::Written);
            if e is Failed {
                lemma_finish_moves_on(s, EntryEnd::Failed(e->Failed_0@));
            }
        },
    }
}

/// Whether `places` says where among the sources each recorded one stands, in
/// the order of the sources.
pub open spec fn recorded_at(s: RunView, places: Seq<int>) -> bool {
    &&& places.len() == s.dests.len()
    &&& forall|i: int, j: int|
        0 <= i < j < places.len() ==> #[trigger] places[i] < #[trigger] places[j]
    &&& forall|i: int|
        0 <= i < places.len() ==> 0 <= #[trigger] places[i] < settled(s) && places[i] < s.srcs.len()
            && s.dests[i].0 == s.srcs[places[i]]
}

/// A run before its first event.
pub open spec fn started(srcs: Seq<Seq<u8>>, dest_dir: Seq<u8>, op: Op, cancelled: bool) -> RunView {
    begin(initial(srcs, dest_dir, op, cancelled))
}

pub(crate) proof fn lemma_started(
    srcs: Seq<Seq<u8>>,
    dest_dir: Seq<u8>,
    op: Op,
    cancelled: bool,
)
    ensures
        consistent(started(srcs, dest_dir, op, cancelled)),
        at_source(started(srcs, dest_dir, op, cancelled)),
        started(srcs, dest_dir, op, cancelled).srcs == srcs,
        started(srcs, dest_dir, op, cancelled).op == op,
        started(srcs, dest_dir, op, cancelled).dests.len() == 0,
        started(srcs, dest_dir, op, cancelled).phase == Phase::Poll || started(
            srcs,
            dest_dir,
            op,
            cancelled,
        ).phase == Phase::ReportFinal,
{
    lemma_begin(initial(srcs, dest_dir, op, cancelled));
    lemma_begin_moves_on(initial(srcs, dest_dir, op, cancelled));
}

#[verifier::spinoff_prover]
proof fn lemma_recorded_on(s: RunView, last: (Event, bool), places: Seq<int>) -> (r: (
    RunView,
    Seq<int>,
))
    requires
        consistent(s),
        fits(s.phase, last.0),
        at_source(s),
        recorded_at(s, places),
    ensures
        r.0 == after(noticed(s, last.1), last.0),
        consistent(r.0),
        at_source(r.0),
        r.0.srcs == s.srcs,
        recorded_at(r.0, r.1),
{
    let u = noticed(s, last.1);
    assert(consistent(u));
    lemma_moves_on(u, last.0);
    lemma_step(u, last.0);
    lemma_after_consistent(u, last.0);
    let t = after(u, last.0);
    if t.dests == s.dests {
        (t, places)
    } else {
        let more = places.push(s.next - 1);
        lemma_one_place_more(s, t, places);
        (t, more)
    }
}

proof fn lemma_one_place_more(s: RunView, t: RunView, places: Seq<int>)
    requires
        recorded_at(s, places),
        active(s),
        1 <= s.next <= s.srcs.len(),
        t.srcs == s.srcs,
        t.next >= s.next,
        t.next > s.next || !active(t),
        t.dests.len() == s.dests.len() + 1,
        t.dests == s.dests.push((origin(s), t.dests.last().1)),
    ensures
        recorded_at(t, places.push(s.next - 1)),
{
    let more = places.push(s.next - 1);
    assert forall|i: int| 0 <= i < more.len() implies 0 <= #[trigger] more[i] < settled(t)
        && more[i] < t.srcs.len() && t.dests[i].0 == t.srcs[more[i]] by {
        if i < places.len() {
            assert(more[i] == places[i]);
            assert(t.dests[i] == s.dests[i]);
        }
    }
}

proof fn lemma_recorded(s: RunView, trace: Seq<(Event, bool)>) -> (r: (RunView, Seq<int>))
    requires
        consistent(s),
        at_source(s),
        s.dests.len() == 0,
        trace_fits(s, trace),
    ensures
        r.0 == run_of(s, trace),
        consistent(r.0),
        at_source(r.0),
        r.0.srcs == s.srcs,
        recorded_at(r.0, r.1),
    decreases trace.len(),
{
    if trace.len() == 0 {
        (s, Seq::empty())
    } else {
        let (t, places) = lemma_recorded(s, trace.drop_last());
        lemma_recorded_on(t, trace.last(), places)
    }
}

/// The destinations that a run records follow the order of its sources, and no
/// source is recorded twice: their sources are a part of the sources, in order.
pub proof fn destinations_follow_the_sources(
    srcs: Seq<Seq<u8>>,
    dest_dir: Seq<u8>,
    op: Op,
    cancelled: bool,
    trace: Seq<(Event, bool)>,
)
    requires
        trace_fits(started(srcs, dest_dir, op, cancelled), trace),
    ensures
        exists|places: Seq<int>|
            recorded_at(run_of(started(srcs, dest_dir, op, cancelled), trace), places),
        run_of(started(srcs, dest_dir, op, cancelled), trace).srcs == srcs,
        at_source(run_of(started(srcs, dest_dir, op, cancelled), trace)),
{
    lemma_started(srcs, dest_dir, op, cancelled);
    let (t, places) = lemma_recorded(started(srcs, dest_dir, op, cancelled), trace);
    assert(recorded_at(t, places));
}

} // verus!
