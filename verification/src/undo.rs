//! Undo and redo of reversible file operations.
//!
//! Only operations with a non-destructive inverse are recorded:
//! a rename is renamed back, what was created or copied goes to the trash, what
//! was trashed is restored, and what was moved is moved back.
use crate::copy_run::{pair_views, path_views};
use crate::unix_path::UnixPath;
use vstd::prelude::*;

verus! {

/// A reversible file operation that was performed.
#[derive(Debug)]
pub enum UndoOp {
    Rename { from: UnixPath, to: UnixPath },
    Create { path: UnixPath, is_dir: bool },
    /// Files moved to the trash.
    Trash { originals: Vec<UnixPath> },
    /// The paths that a copy created.
    Copy { dests: Vec<UnixPath> },
    /// Source and final destination of each file that was moved.
    Move { moves: Vec<(UnixPath, UnixPath)> },
}

/// A linear history: what can be undone and what can be redone, each with the
/// latest operation at the end.
#[derive(Debug)]
pub struct UndoStack {
    pub undo: Vec<UndoOp>,
    pub redo: Vec<UndoOp>,
}

impl Default for UndoStack {
    fn default() -> (r: Self)
        ensures
            r.undo@ == Seq::<UndoOp>::empty(),
            r.redo@ == Seq::<UndoOp>::empty(),
    {
        UndoStack { undo: Vec::new(), redo: Vec::new() }
    }
}

impl UndoStack {
    /// Records an operation. What was undone before can no longer be redone.
    pub fn record(&mut self, op: UndoOp)
        ensures
            final(self).undo@ == old(self).undo@.push(op),
            final(self).redo@ == Seq::<UndoOp>::empty(),
    {
        self.undo.push(op);
        self.redo.clear();
    }

    /// Takes the operation to undo, or to redo, off the history.
    pub fn take(&mut self, is_undo: bool) -> (r: Option<UndoOp>)
        ensures
            ({
                let stack = if is_undo {
                    old(self).undo@
                } else {
                    old(self).redo@
                };
                let left = if is_undo {
                    final(self).undo@
                } else {
                    final(self).redo@
                };
                if stack.len() == 0 {
                    r is None && left == stack
                } else {
                    r == Some(stack.last()) && left == stack.drop_last()
                }
            }),
            is_undo ==> final(self).redo == old(self).redo,
            !is_undo ==> final(self).undo == old(self).undo,
    {
        if is_undo {
            self.undo.pop()
        } else {
            self.redo.pop()
        }
    }

    /// Puts an operation back: on the opposite side where it succeeded, where it
    /// came from where it failed.
    pub fn settle(&mut self, op: UndoOp, is_undo: bool, ok: bool)
        ensures
            is_undo == ok ==> final(self).redo@ == old(self).redo@.push(op) && final(self).undo
                == old(self).undo,
            is_undo != ok ==> final(self).undo@ == old(self).undo@.push(op) && final(self).redo
                == old(self).redo,
    {
        if is_undo == ok {
            self.redo.push(op);
        } else {
            self.undo.push(op);
        }
    }
}

/// The two sides of a history.
pub struct History {
    pub undo: Seq<UndoOp>,
    pub redo: Seq<UndoOp>,
}

/// A history after its last operation was undone, or redone, with success.
pub open spec fn stepped(h: History, is_undo: bool) -> History {
    if is_undo {
        if h.undo.len() == 0 {
            h
        } else {
            History { undo: h.undo.drop_last(), redo: h.redo.push(h.undo.last()) }
        }
    } else {
        if h.redo.len() == 0 {
            h
        } else {
            History { undo: h.undo.push(h.redo.last()), redo: h.redo.drop_last() }
        }
    }
}

/// Redoing what was just undone leads back to the same history, and the other
/// way round.
pub proof fn redo_reverts_undo(h: History)
    ensures
        h.undo.len() > 0 ==> stepped(stepped(h, true), false) == h,
        h.redo.len() > 0 ==> stepped(stepped(h, false), true) == h,
{
    if h.undo.len() > 0 {
        assert(h.undo.drop_last().push(h.undo.last()) =~= h.undo);
        assert(h.redo.push(h.undo.last()).drop_last() =~= h.redo);
    }
    if h.redo.len() > 0 {
        assert(h.redo.drop_last().push(h.redo.last()) =~= h.redo);
        assert(h.undo.push(h.redo.last()).drop_last() =~= h.undo);
    }
}

/// Undoes or redoes the last operation, given whether its work succeeded.
/// Returns whether there was one.
pub fn apply(stack: &mut UndoStack, is_undo: bool, ok: bool) -> (r: bool)
    ensures
        ({
            let before = History { undo: old(stack).undo@, redo: old(stack).redo@ };
            let after = History { undo: final(stack).undo@, redo: final(stack).redo@ };
            let source = if is_undo {
                before.undo
            } else {
                before.redo
            };
            &&& r == (source.len() > 0)
            &&& after == if ok {
                stepped(before, is_undo)
            } else {
                before
            }
        }),
{
    let ghost before = History { undo: stack.undo@, redo: stack.redo@ };
    match stack.take(is_undo) {
        Some(op) => {
            stack.settle(op, is_undo, ok);
            proof {
                if before.undo.len() > 0 {
                    assert(before.undo.drop_last().push(before.undo.last()) =~= before.undo);
                }
                if before.redo.len() > 0 {
                    assert(before.redo.drop_last().push(before.redo.last()) =~= before.redo);
                }
            }
            true
        },
        None => false,
    }
}

// ---------------------------------------------------------------------------
// What an undo or redo does
// ---------------------------------------------------------------------------

/// A piece of outside work.
#[derive(Debug)]
pub enum UndoStep {
    /// Rename, if the source is there and the destination is not.
    Rename(UnixPath, UnixPath),
    /// Move all to the trash.
    Trash(Vec<UnixPath>),
    /// Move those that are still there to the trash.
    TrashPresent(Vec<UnixPath>),
    /// Restore from the trash what came from the path.
    Restore(UnixPath),
    /// Make an empty file or directory, unless something is there.
    Recreate(UnixPath, bool),
}

/// A piece of outside work in mathematical terms.
pub enum StepView {
    Rename(Seq<u8>, Seq<u8>),
    Trash(Seq<Seq<u8>>),
    TrashPresent(Seq<Seq<u8>>),
    Restore(Seq<u8>),
    Recreate(Seq<u8>, bool),
}

impl View for UndoStep {
    type V = StepView;

    open spec fn view(&self) -> StepView {
        match self {
            UndoStep::Rename(a, b) => StepView::Rename(a@, b@),
            UndoStep::Trash(v) => StepView::Trash(path_views(v@)),
            UndoStep::TrashPresent(v) => StepView::TrashPresent(path_views(v@)),
            UndoStep::Restore(p) => StepView::Restore(p@),
            UndoStep::Recreate(p, d) => StepView::Recreate(p@, *d),
        }
    }
}

/// The work that undoes or redoes an operation, in order.
pub open spec fn plan(op: UndoOp, is_undo: bool) -> Seq<StepView> {
    match op {
        UndoOp::Rename { from, to } => if is_undo {
            seq![StepView::Rename(to@, from@)]
        } else {
            seq![StepView::Rename(from@, to@)]
        },
        UndoOp::Create { path, is_dir } => if is_undo {
            seq![StepView::Trash(seq![path@])]
        } else {
            seq![StepView::Recreate(path@, is_dir)]
        },
        UndoOp::Trash { originals } => if is_undo {
            path_views(originals@).map_values(|p: Seq<u8>| StepView::Restore(p))
        } else {
            seq![StepView::Trash(path_views(originals@))]
        },
        UndoOp::Copy { dests } => if is_undo {
            seq![StepView::TrashPresent(path_views(dests@))]
        } else {
            path_views(dests@).map_values(|p: Seq<u8>| StepView::Restore(p))
        },
        UndoOp::Move { moves } => pair_views(moves@).map_values(
            |m: (Seq<u8>, Seq<u8>)|
                if is_undo {
                    StepView::Rename(m.1, m.0)
                } else {
                    StepView::Rename(m.0, m.1)
                },
        ),
    }
}

/// The views of a list of steps.
pub open spec fn step_views(v: Seq<UndoStep>) -> Seq<StepView> {
    v.map_values(|s: UndoStep| s@)
}

/// Copies a list of paths.
pub fn copy_paths(v: &Vec<UnixPath>) -> (r: Vec<UnixPath>)
    ensures
        path_views(r@) == path_views(v@),
{
    let mut r: Vec<UnixPath> = Vec::new();
    let mut i: usize = 0;
    while i < v.len()
        invariant
            i <= v@.len(),
            r@.len() == i,
            forall|k: int| 0 <= k < i ==> (#[trigger] r@[k])@ == v@[k]@,
        decreases v@.len() - i,
    {
        r.push(v[i].clone());
        i += 1;
    }
    assert(path_views(r@) =~= path_views(v@));
    r
}

fn restores(v: &Vec<UnixPath>) -> (r: Vec<UndoStep>)
    ensures
        step_views(r@) == path_views(v@).map_values(|p: Seq<u8>| StepView::Restore(p)),
{
    let mut r: Vec<UndoStep> = Vec::new();
    let mut i: usize = 0;
    while i < v.len()
        invariant
            i <= v@.len(),
            r@.len() == i,
            forall|k: int| 0 <= k < i ==> (#[trigger] r@[k])@ == StepView::Restore(v@[k]@),
        decreases v@.len() - i,
    {
        r.push(UndoStep::Restore(v[i].clone()));
        i += 1;
    }
    assert(step_views(r@) =~= path_views(v@).map_values(|p: Seq<u8>| StepView::Restore(p)));
    r
}

/// The work that undoes or redoes an operation, in order. All of it is done
/// even where some fails.
pub fn perform(op: &UndoOp, is_undo: bool) -> (r: Vec<UndoStep>)
    ensures
        step_views(r@) == plan(*op, is_undo),
{
    let mut r: Vec<UndoStep> = Vec::new();
    match op {
        UndoOp::Rename { from, to } => {
            if is_undo {
                r.push(UndoStep::Rename(to.clone(), from.clone()));
            } else {
                r.push(UndoStep::Rename(from.clone(), to.clone()));
            }
        },
        UndoOp::Create { path, is_dir } => {
            if is_undo {
                let mut v: Vec<UnixPath> = Vec::new();
                v.push(path.clone());
                assert(path_views(v@) =~= seq![path@]);
                r.push(UndoStep::Trash(v));
            } else {
                r.push(UndoStep::Recreate(path.clone(), *is_dir));
            }
        },
        UndoOp::Trash { originals } => {
            if is_undo {
                return restores(originals);
            }
            r.push(UndoStep::Trash(copy_paths(originals)));
        },
        UndoOp::Copy { dests } => {
            if !is_undo {
                return restores(dests);
            }
            r.push(UndoStep::TrashPresent(copy_paths(dests)));
        },
        UndoOp::Move { moves } => {
            let mut i: usize = 0;
            while i < moves.len()
                invariant
                    i <= moves@.len(),
                    r@.len() == i,
                    forall|k: int|
                        0 <= k < i ==> (#[trigger] r@[k])@ == if is_undo {
                            StepView::Rename(moves@[k].1@, moves@[k].0@)
                        } else {
                            StepView::Rename(moves@[k].0@, moves@[k].1@)
                        },
                decreases moves@.len() - i,
            {
                let src = moves[i].0.clone();
                let dest = moves[i].1.clone();
                if is_undo {
                    r.push(UndoStep::Rename(dest, src));
                } else {
                    r.push(UndoStep::Rename(src, dest));
                }
                i += 1;
            }
        },
    }
    assert(step_views(r@) =~= plan(*op, is_undo));
    r
}

/// Undoing a rename or a move is renaming in the opposite direction.
pub proof fn undo_of_move_reverses_it(op: UndoOp, i: int)
    requires
        op is Rename || op is Move,
        0 <= i < plan(op, false).len(),
    ensures
        plan(op, true).len() == plan(op, false).len(),
        plan(op, false)[i] matches StepView::Rename(a, b) && plan(op, true)[i] == StepView::Rename(
            b,
            a,
        ),
{
}

/// Whether a rename of the history may go ahead: its source is there and would
/// not replace anything.
pub fn rename_may_go_ahead(source_exists: bool, dest_exists: bool) -> (r: bool)
    ensures
        r == (source_exists && !dest_exists),
{
    source_exists && !dest_exists
}

/// The indices below `n` at which `flags` is set.
pub open spec fn picked(paths: Seq<Seq<u8>>, flags: Seq<bool>, n: int) -> Seq<Seq<u8>>
    decreases n,
{
    if n <= 0 {
        Seq::empty()
    } else if flags[n - 1] {
        picked(paths, flags, n - 1).push(paths[n - 1])
    } else {
        picked(paths, flags, n - 1)
    }
}

/// The paths that are still there.
pub fn present(paths: &Vec<UnixPath>, exists: &Vec<bool>) -> (r: Vec<UnixPath>)
    requires
        paths@.len() == exists@.len(),
    ensures
        path_views(r@) == picked(path_views(paths@), exists@, paths@.len() as int),
{
    let mut r: Vec<UnixPath> = Vec::new();
    let mut i: usize = 0;
    assert(path_views(r@) =~= picked(path_views(paths@), exists@, 0));
    while i < paths.len()
        invariant
            i <= paths@.len(),
            paths@.len() == exists@.len(),
            path_views(r@) == picked(path_views(paths@), exists@, i as int),
        decreases paths@.len() - i,
    {
        if exists[i] {
            let ghost before = r@;
            r.push(paths[i].clone());
            assert(path_views(r@) =~= path_views(before).push(paths@[i as int]@));
        }
        i += 1;
    }
    r
}

/// Whether an undo or redo succeeded: all its work did.
pub fn all_succeeded(results: &Vec<bool>) -> (r: bool)
    ensures
        r == forall|i: int| 0 <= i < results@.len() ==> #[trigger] results@[i],
{
    let mut i: usize = 0;
    while i < results.len()
        invariant
            i <= results@.len(),
            forall|k: int| 0 <= k < i ==> #[trigger] results@[k],
        decreases results@.len() - i,
    {
        if !results[i] {
            return false;
        }
        i += 1;
    }
    true
}

} // verus!
