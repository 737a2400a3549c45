//! What undoing and redoing does to the files: undoing leads back to what was
//! there, and redoing to what the operation had led to.
use crate::copy_run::{pair_views, path_views};
use crate::unix_path::UnixPath;
use crate::undo::{picked, plan, stepped, History, StepView, UndoOp};
use vstd::prelude::*;

verus! {

/// Which paths are there, and which came into the trash and from where.
#[verifier::ext_equal]
pub struct Files {
    pub there: Set<Seq<u8>>,
    pub trash: Set<Seq<u8>>,
}

/// What a piece of work does to the files.
pub open spec fn worked(f: Files, w: StepView) -> Files {
    match w {
        StepView::Rename(a, b) => if f.there.contains(a) && !f.there.contains(b) {
            Files { there: f.there.remove(a).insert(b), ..f }
        } else {
            f
        },
        StepView::Trash(v) | StepView::TrashPresent(v) => Files {
            there: f.there.difference(v.to_set()),
            trash: f.trash.union(v.to_set().intersect(f.there)),
        },
        StepView::Restore(p) => if f.trash.contains(p) {
            Files { there: f.there.insert(p), trash: f.trash.remove(p) }
        } else {
            f
        },
        StepView::Recreate(p, _) => Files { there: f.there.insert(p), ..f },
    }
}

/// What pieces of work do to the files, one after the other.
pub open spec fn carried_out(f: Files, work: Seq<StepView>) -> Files
    decreases work.len(),
{
    if work.len() == 0 {
        f
    } else {
        worked(carried_out(f, work.drop_last()), work.last())
    }
}

proof fn lemma_one(f: Files, w: StepView)
    ensures
        carried_out(f, seq![w]) == worked(f, w),
{
    let work = seq![w];
    assert(work.drop_last() =~= Seq::<StepView>::empty());
    assert(work.last() == w);
    assert(carried_out(f, work.drop_last()) == f);
}

proof fn lemma_restored(f: Files, work: Seq<StepView>, paths: Seq<Seq<u8>>)
    requires
        work.len() == paths.len(),
        forall|i: int| 0 <= i < work.len() ==> #[trigger] work[i] == StepView::Restore(paths[i]),
    ensures
        carried_out(f, work).there == f.there.union(paths.to_set().intersect(f.trash)),
        carried_out(f, work).trash == f.trash.difference(paths.to_set()),
    decreases work.len(),
{
    if work.len() == 0 {
        assert(paths.to_set() =~= Set::empty());
        assert(f.there.union(Set::empty().intersect(f.trash)) =~= f.there);
        assert(f.trash.difference(Set::empty()) =~= f.trash);
    } else {
        let rest = paths.drop_last();
        lemma_restored(f, work.drop_last(), rest);
        let g = carried_out(f, work.drop_last());
        let p = paths.last();
        assert(work.last() == StepView::Restore(p));
        assert(paths =~= rest.push(p));
        assert forall|q: Seq<u8>| paths.to_set().contains(q) <==> rest.to_set().contains(q) || q
            == p by {
            if rest.to_set().contains(q) {
                let k = choose|k: int| 0 <= k < rest.len() && rest[k] == q;
                assert(paths[k] == q);
            }
            if q == p {
                assert(paths[paths.len() - 1] == q);
            }
            if paths.to_set().contains(q) && q != p {
                let k = choose|k: int| 0 <= k < paths.len() && paths[k] == q;
                assert(rest[k] == q);
            }
        }
        assert(carried_out(f, work).there =~= f.there.union(paths.to_set().intersect(f.trash)));
        assert(carried_out(f, work).trash =~= f.trash.difference(paths.to_set()));
    }
}

/// Undoing a copy trashes what the copy created, all of it and nothing else, and
/// redoing it brings the same back: the files are again those from before the
/// copy, and then those from after it.
pub proof fn undoing_a_copy_takes_the_copies_away(dests: Vec<UnixPath>, before: Files)
    requires
        before.there.disjoint(path_views(dests@).to_set()),
        before.trash.disjoint(path_views(dests@).to_set()),
    ensures
        ({
            let op = UndoOp::Copy { dests };
            let copied = Files {
                there: before.there.union(path_views(dests@).to_set()),
                ..before
            };
            let undone = carried_out(copied, plan(op, true));
            let redone = carried_out(undone, plan(op, false));
            &&& undone.there == before.there
            &&& undone.trash == before.trash.union(path_views(dests@).to_set())
            &&& redone == copied
        }),
{
    let op = UndoOp::Copy { dests };
    let ds = path_views(dests@);
    let set = ds.to_set();
    let copied = Files { there: before.there.union(set), ..before };
    assert(plan(op, true) =~= seq![StepView::TrashPresent(ds)]);
    lemma_one(copied, StepView::TrashPresent(ds));
    let undone = carried_out(copied, plan(op, true));
    assert(undone.there =~= before.there);
    assert(undone.trash =~= before.trash.union(set));
    lemma_restored(undone, plan(op, false), ds);
    let redone = carried_out(undone, plan(op, false));
    assert(redone.there =~= copied.there);
    assert(redone.trash =~= copied.trash);
}

/// Undoing a trashing restores what was trashed, all of it and nothing else, and
/// redoing it trashes the same again.
pub proof fn undoing_a_trashing_restores_it(originals: Vec<UnixPath>, before: Files)
    requires
        path_views(originals@).to_set().subset_of(before.there),
        before.trash.disjoint(path_views(originals@).to_set()),
    ensures
        ({
            let op = UndoOp::Trash { originals };
            let set = path_views(originals@).to_set();
            let trashed = Files {
                there: before.there.difference(set),
                trash: before.trash.union(set),
            };
            &&& carried_out(trashed, plan(op, true)) == before
            &&& carried_out(before, plan(op, false)) == trashed
        }),
{
    let op = UndoOp::Trash { originals };
    let os = path_views(originals@);
    let set = os.to_set();
    let trashed = Files { there: before.there.difference(set), trash: before.trash.union(set) };
    lemma_restored(trashed, plan(op, true), os);
    assert(carried_out(trashed, plan(op, true)).there =~= before.there);
    assert(carried_out(trashed, plan(op, true)).trash =~= before.trash);
    assert(plan(op, false) =~= seq![StepView::Trash(os)]);
    lemma_one(before, StepView::Trash(os));
    assert(carried_out(before, plan(op, false)).there =~= trashed.there);
    assert(carried_out(before, plan(op, false)).trash =~= trashed.trash);
}

/// Undoing a creation trashes what was created and nothing else, and redoing it
/// makes the same anew, a folder as a folder and a file as a file.
pub proof fn undoing_a_creation_takes_it_away(path: UnixPath, is_dir: bool, before: Files)
    requires
        !before.there.contains(path@),
    ensures
        ({
            let op = UndoOp::Create { path, is_dir };
            let created = Files { there: before.there.insert(path@), ..before };
            let undone = carried_out(created, plan(op, true));
            &&& undone.there == before.there
            &&& undone.trash == before.trash.insert(path@)
            &&& carried_out(undone, plan(op, false)).there == created.there
            &&& forall|i: int|
                0 <= i < plan(op, false).len() ==> (#[trigger] plan(op, false)[i]
                    == StepView::Recreate(path@, is_dir))
        }),
{
    let op = UndoOp::Create { path, is_dir };
    let created = Files { there: before.there.insert(path@), ..before };
    assert(plan(op, true) =~= seq![StepView::Trash(seq![path@])]);
    lemma_one(created, StepView::Trash(seq![path@]));
    let undone = carried_out(created, plan(op, true));
    assert(seq![path@].to_set() =~= set![path@]) by {
        assert(seq![path@][0] == path@);
    }
    assert(undone.there =~= before.there);
    assert(undone.trash =~= before.trash.insert(path@));
    assert(plan(op, false) =~= seq![StepView::Recreate(path@, is_dir)]);
    lemma_one(undone, StepView::Recreate(path@, is_dir));
    assert(carried_out(undone, plan(op, false)).there =~= created.there);
}

/// Undoing a rename gives the file its old name back, and redoing it the new one.
pub proof fn undoing_a_rename_gives_the_name_back(from: UnixPath, to: UnixPath, before: Files)
    requires
        before.there.contains(from@),
        !before.there.contains(to@),
    ensures
        ({
            let op = UndoOp::Rename { from, to };
            let renamed = Files { there: before.there.remove(from@).insert(to@), ..before };
            &&& carried_out(renamed, plan(op, true)) == before
            &&& carried_out(before, plan(op, false)) == renamed
        }),
{
    let op = UndoOp::Rename { from, to };
    let renamed = Files { there: before.there.remove(from@).insert(to@), ..before };
    assert(plan(op, true) =~= seq![StepView::Rename(to@, from@)]);
    assert(plan(op, false) =~= seq![StepView::Rename(from@, to@)]);
    lemma_one(renamed, StepView::Rename(to@, from@));
    lemma_one(before, StepView::Rename(from@, to@));
    assert(carried_out(renamed, plan(op, true)).there =~= before.there);
    assert(carried_out(before, plan(op, false)).there =~= renamed.there);
}

/// The sources, or the destinations, of moves.
pub open spec fn ends_of(moves: Seq<(Seq<u8>, Seq<u8>)>, dest: bool) -> Set<Seq<u8>> {
    Set::new(
        |p: Seq<u8>|
            exists|i: int|
                0 <= i < moves.len() && p == if dest {
                    (#[trigger] moves[i]).1
                } else {
                    moves[i].0
                },
    )
}

/// Whether moves are apart: no two have a path in common.
pub open spec fn apart(moves: Seq<(Seq<u8>, Seq<u8>)>) -> bool {
    &&& forall|i: int, j: int|
        0 <= i < j < moves.len() ==> (#[trigger] moves[i]).0 != (#[trigger] moves[j]).0
    &&& forall|i: int, j: int|
        0 <= i < j < moves.len() ==> (#[trigger] moves[i]).1 != (#[trigger] moves[j]).1
    &&& forall|i: int, j: int|
        0 <= i < moves.len() && 0 <= j < moves.len() ==> (#[trigger] moves[i]).0 != (
        #[trigger] moves[j]).1
}

proof fn lemma_renamed(f: Files, work: Seq<StepView>, moves: Seq<(Seq<u8>, Seq<u8>)>, back: bool, forth: bool)
    requires
        work.len() == moves.len(),
        forth == !back,
        apart(moves),
        forall|i: int|
            0 <= i < work.len() ==> #[trigger] work[i] == if back {
                StepView::Rename(moves[i].1, moves[i].0)
            } else {
                StepView::Rename(moves[i].0, moves[i].1)
            },
        ends_of(moves, back).subset_of(f.there),
        ends_of(moves, forth).disjoint(f.there),
    ensures
        carried_out(f, work).there == f.there.difference(ends_of(moves, back)).union(
            ends_of(moves, forth),
        ),
        carried_out(f, work).trash == f.trash,
    decreases work.len(),
{
    if work.len() == 0 {
        assert(f.there.difference(ends_of(moves, back)).union(ends_of(moves, forth)) =~= f.there);
    } else {
        let n = moves.len() - 1;
        let rest = moves.drop_last();
        assert forall|p: Seq<u8>| ends_of(rest, back).contains(p) implies ends_of(
            moves,
            back,
        ).contains(p) by {
            let i = choose|i: int|
                0 <= i < rest.len() && p == if back {
                    (#[trigger] rest[i]).1
                } else {
                    rest[i].0
                };
            assert(moves[i] == rest[i]);
        }
        assert forall|p: Seq<u8>| ends_of(rest, forth).contains(p) implies ends_of(
            moves,
            forth,
        ).contains(p) by {
            let i = choose|i: int|
                0 <= i < rest.len() && p == if forth {
                    (#[trigger] rest[i]).1
                } else {
                    rest[i].0
                };
            assert(moves[i] == rest[i]);
        }
        lemma_renamed(f, work.drop_last(), rest, back, forth);
        let g = carried_out(f, work.drop_last());
        let (a, b) = if back {
            (moves[n].1, moves[n].0)
        } else {
            (moves[n].0, moves[n].1)
        };
        assert(ends_of(moves, back).contains(a));
        assert(ends_of(moves, forth).contains(b));
        assert(work.last() == StepView::Rename(a, b));
        assert(!ends_of(rest, back).contains(a)) by {
            if ends_of(rest, back).contains(a) {
                let i = choose|i: int|
                    0 <= i < rest.len() && a == if back {
                        (#[trigger] rest[i]).1
                    } else {
                        rest[i].0
                    };
                assert(moves[i] == rest[i]);
            }
        }
        assert(!ends_of(rest, forth).contains(b)) by {
            if ends_of(rest, forth).contains(b) {
                let i = choose|i: int|
                    0 <= i < rest.len() && b == if forth {
                        (#[trigger] rest[i]).1
                    } else {
                        rest[i].0
                    };
                assert(moves[i] == rest[i]);
            }
        }
        assert forall|p: Seq<u8>| ends_of(moves, back).contains(p) <==> ends_of(rest, back).contains(
            p,
        ) || p == a by {
            if ends_of(moves, back).contains(p) && p != a {
                let i = choose|i: int|
                    0 <= i < moves.len() && p == if back {
                        (#[trigger] moves[i]).1
                    } else {
                        moves[i].0
                    };
                assert(rest[i] == moves[i]);
            }
        }
        assert forall|p: Seq<u8>| ends_of(moves, forth).contains(p) <==> ends_of(
            rest,
            forth,
        ).contains(p) || p == b by {
            if ends_of(moves, forth).contains(p) && p != b {
                let i = choose|i: int|
                    0 <= i < moves.len() && p == if forth {
                        (#[trigger] moves[i]).1
                    } else {
                        moves[i].0
                    };
                assert(rest[i] == moves[i]);
            }
        }
        assert(g.there.contains(a));
        assert(!g.there.contains(b));
        assert forall|p: Seq<u8>| ends_of(rest, forth).contains(p) implies p != a by {
            let i = choose|i: int|
                0 <= i < rest.len() && p == if forth {
                    (#[trigger] rest[i]).1
                } else {
                    rest[i].0
                };
            assert(moves[i] == rest[i]);
        }
        assert(carried_out(f, work).there =~= f.there.difference(ends_of(moves, back)).union(
            ends_of(moves, forth),
        ));
    }
}

/// Undoing a move brings everything back to where it was, and redoing it to where
/// it was moved.
pub proof fn undoing_a_move_brings_everything_back(
    moves: Vec<(UnixPath, UnixPath)>,
    before: Files,
)
    requires
        apart(pair_views(moves@)),
        ends_of(pair_views(moves@), false).subset_of(before.there),
        ends_of(pair_views(moves@), true).disjoint(before.there),
    ensures
        ({
            let op = UndoOp::Move { moves };
            let ms = pair_views(moves@);
            let moved = Files {
                there: before.there.difference(ends_of(ms, false)).union(ends_of(ms, true)),
                ..before
            };
            &&& carried_out(moved, plan(op, true)) == before
            &&& carried_out(before, plan(op, false)) == moved
        }),
{
    let op = UndoOp::Move { moves };
    let ms = pair_views(moves@);
    let moved = Files {
        there: before.there.difference(ends_of(ms, false)).union(ends_of(ms, true)),
        ..before
    };
    assert(ends_of(ms, false).disjoint(ends_of(ms, true))) by {
        assert forall|p: Seq<u8>| ends_of(ms, false).contains(p) implies !ends_of(
            ms,
            true,
        ).contains(p) by {
            if ends_of(ms, true).contains(p) {
                let i = choose|i: int| 0 <= i < ms.len() && p == (#[trigger] ms[i]).0;
                let j = choose|j: int| 0 <= j < ms.len() && p == (#[trigger] ms[j]).1;
                assert(ms[i].0 != ms[j].1);
            }
        }
    }
    lemma_renamed(before, plan(op, false), ms, false, true);
    lemma_renamed(moved, plan(op, true), ms, true, false);
    assert(carried_out(moved, plan(op, true)).there =~= before.there);
}

/// Of the paths that are looked for, those that are there are taken and no
/// others.
pub proof fn what_is_present_is_taken(paths: Seq<Seq<u8>>, flags: Seq<bool>, p: Seq<u8>)
    requires
        paths.len() == flags.len(),
    ensures
        picked(paths, flags, paths.len() as int).contains(p) <==> exists|i: int|
            0 <= i < paths.len() && flags[i] && #[trigger] paths[i] == p,
        (forall|i: int| 0 <= i < flags.len() ==> #[trigger] flags[i]) ==> picked(
            paths,
            flags,
            paths.len() as int,
        ) == paths,
{
    lemma_picked(paths, flags, paths.len() as int, p);
    if forall|i: int| 0 <= i < flags.len() ==> #[trigger] flags[i] {
        lemma_all_picked(paths, flags, paths.len() as int);
        assert(paths.take(paths.len() as int) =~= paths);
    }
}

proof fn lemma_all_picked(paths: Seq<Seq<u8>>, flags: Seq<bool>, n: int)
    requires
        0 <= n <= paths.len(),
        paths.len() == flags.len(),
        forall|i: int| 0 <= i < flags.len() ==> #[trigger] flags[i],
    ensures
        picked(paths, flags, n) == paths.take(n),
    decreases n,
{
    if n > 0 {
        lemma_all_picked(paths, flags, n - 1);
        assert(flags[n - 1]);
        assert(paths.take(n) =~= paths.take(n - 1).push(paths[n - 1]));
    } else {
        assert(paths.take(0) =~= Seq::empty());
    }
}

proof fn lemma_picked(paths: Seq<Seq<u8>>, flags: Seq<bool>, n: int, p: Seq<u8>)
    requires
        0 <= n <= paths.len(),
        paths.len() == flags.len(),
    ensures
        picked(paths, flags, n).contains(p) <==> exists|i: int|
            0 <= i < n && flags[i] && #[trigger] paths[i] == p,
    decreases n,
{
    if n > 0 {
        lemma_picked(paths, flags, n - 1, p);
        if flags[n - 1] {
            let v = picked(paths, flags, n - 1);
            vstd::seq_lib::lemma_seq_contains_after_push(v, paths[n - 1], p);
        }
        if exists|i: int| 0 <= i < n - 1 && flags[i] && #[trigger] paths[i] == p {
            let i = choose|i: int| 0 <= i < n - 1 && flags[i] && #[trigger] paths[i] == p;
            assert(flags[i] && paths[i] == p);
        }
    }
}

/// The operation that is undone is the one that was recorded last; it can then be
/// redone, and everything recorded before it stays.
pub proof fn the_last_operation_is_undone(h: History, op: UndoOp)
    ensures
        ({
            let recorded = History { undo: h.undo.push(op), redo: Seq::empty() };
            let undone = stepped(recorded, true);
            &&& undone.undo == h.undo
            &&& undone.redo.len() == 1 && undone.redo[0] == op
            &&& stepped(undone, false).undo == recorded.undo
            &&& stepped(undone, false).redo.len() == 0
        }),
        h.undo.len() == 0 ==> stepped(h, true) == h,
        h.redo.len() == 0 ==> stepped(h, false) == h,
{
    let recorded = History { undo: h.undo.push(op), redo: Seq::empty() };
    assert(recorded.undo.drop_last() =~= h.undo);
    let undone = stepped(recorded, true);
    assert(undone.redo =~= seq![op]);
    assert(undone.redo.drop_last() =~= Seq::<UndoOp>::empty());
}

} // verus!
