//! What copying and moving entries share: the flags that hold or stop a run,
//! progress and its throttling, the totals of the scan before a run, and the
//! outcome.
use crate::unix_path::UnixPath;
use vstd::prelude::*;

verus! {

/// A request to stop an operation. Once raised it stays until it is reset.
#[derive(Debug)]
pub struct CancelFlag {
    pub cancelled: bool,
}

impl CancelFlag {
    /// A flag that is not raised.
    pub fn new() -> (r: Self)
        ensures
            !r.cancelled,
    {
        CancelFlag { cancelled: false }
    }

    /// Raises the flag.
    pub fn cancel(&mut self)
        ensures
            final(self).cancelled,
    {
        self.cancelled = true;
    }

    /// Whether the flag is raised.
    pub fn is_cancelled(&self) -> (r: bool)
        ensures
            r == self.cancelled,
    {
        self.cancelled
    }

    /// Lowers the flag.
    pub fn reset(&mut self)
        ensures
            !final(self).cancelled,
    {
        self.cancelled = false;
    }
}

impl Default for CancelFlag {
    fn default() -> (r: Self)
        ensures
            !r.cancelled,
    {
        CancelFlag::new()
    }
}

/// A request to hold an operation. Cancelling wins over it.
#[derive(Debug)]
pub struct PauseFlag {
    pub paused: bool,
}

impl PauseFlag {
    /// A flag that is not set.
    pub fn new() -> (r: Self)
        ensures
            !r.paused,
    {
        PauseFlag { paused: false }
    }

    /// Sets or clears the flag.
    pub fn set_paused(&mut self, paused: bool)
        ensures
            final(self).paused == paused,
    {
        self.paused = paused;
    }

    /// Whether the flag is set.
    pub fn is_paused(&self) -> (r: bool)
        ensures
            r == self.paused,
    {
        self.paused
    }
}

impl Default for PauseFlag {
    fn default() -> (r: Self)
        ensures
            !r.paused,
    {
        PauseFlag::new()
    }
}

/// Whether a worker has to keep waiting: it is paused and not cancelled.
pub fn must_wait(pause: &PauseFlag, cancel: &CancelFlag) -> (r: bool)
    ensures
        r == (pause.paused && !cancel.cancelled),
{
    pause.is_paused() && !cancel.is_cancelled()
}

/// How to resolve a destination that already exists.
#[derive(Clone, Copy, Debug, PartialEq, Eq, Structural)]
pub enum Conflict {
    /// Remove the existing destination, then write the source in its place.
    Overwrite,
    /// Leave the existing destination untouched; don't copy this source.
    Skip,
    /// Copy alongside under a " (1)"-style unique name.
    KeepBoth,
    /// Abort the whole operation.
    Cancel,
}

/// What is done with the sources.
#[derive(Clone, Copy, Debug, PartialEq, Eq, Structural)]
pub enum Op {
    Copy,
    Move,
}

/// A snapshot of how far an operation has come.
#[derive(Debug)]
pub struct Progress {
    pub op: Op,
    pub current: UnixPath,
    pub files_done: u64,
    pub files_total: u64,
    pub bytes_done: u64,
    pub bytes_total: u64,
}

/// A path that could not be fully copied or moved.
#[derive(Debug)]
pub struct CopyError {
    pub path: UnixPath,
    pub message: String,
}

/// The result of a run. A failure on one entry is recorded here and the rest of
/// the batch still proceeds.
#[derive(Debug)]
pub struct CopyOutcome {
    /// Top-level paths processed without error.
    pub succeeded: u64,
    /// Failures, each with a readable reason.
    pub errors: Vec<CopyError>,
    /// Whether the batch was cancelled before it finished.
    pub cancelled: bool,
    /// Top-level paths skipped at the user's request.
    pub skipped: u64,
    /// Source and final destination of each top-level entry that succeeded.
    pub dests: Vec<(UnixPath, UnixPath)>,
}

// ---------------------------------------------------------------------------
// Throttling
// ---------------------------------------------------------------------------

/// Lets an event through at most once per gap, unless it is forced.
#[derive(Clone, Copy, Debug, PartialEq, Eq, Structural)]
pub struct ProgressEmitter {
    /// When the last event passed, in nanoseconds of a monotonic clock.
    pub last_emit: i64,
}

/// The gap between two events: 33 milliseconds.
pub const MIN_GAP: i64 = 33_000_000;

/// One second.
pub const ONE_SECOND: i64 = 1_000_000_000;

impl ProgressEmitter {
    /// An emitter whose first event passes.
    pub fn new(now: i64) -> (r: Self)
        requires
            now >= i64::MIN + ONE_SECOND,
        ensures
            r.last_emit == now - ONE_SECOND,
    {
        ProgressEmitter { last_emit: now - ONE_SECOND }
    }

    /// Whether an event passes at the time `now`.
    pub fn maybe_emit(&mut self, now: i64, force: bool) -> (r: bool)
        ensures
            r == (force || now - old(self).last_emit >= MIN_GAP),
            final(self).last_emit == if r {
                now
            } else {
                old(self).last_emit
            },
    {
        if force || (now as i128) - (self.last_emit as i128) >= MIN_GAP as i128 {
            self.last_emit = now;
            true
        } else {
            false
        }
    }
}

// ---------------------------------------------------------------------------
// Entries
// ---------------------------------------------------------------------------

/// What kind of entry a path leads to, links not followed.
#[derive(Clone, Copy, Debug, PartialEq, Eq, Structural)]
pub enum EntryKind {
    Link,
    Directory,
    Other,
}

/// The totals of a scan before the operation.
#[derive(Clone, Copy, Debug, PartialEq, Eq, Structural)]
pub struct Totals {
    pub files: u64,
    pub bytes: u64,
}

/// The totals with a source added that is no directory.
pub open spec fn with_file(t: Totals, len: u64) -> Totals {
    Totals { files: (t.files + 1) as u64, bytes: (t.bytes + len) as u64 }
}

impl Totals {
    pub fn new() -> (r: Self)
        ensures
            r == (Totals { files: 0, bytes: 0 }),
    {
        Totals { files: 0, bytes: 0 }
    }

    /// Takes a source into account. Says whether the tree below it is to be
    /// walked; a source that could not be read adds nothing.
    pub fn prescan(&mut self, found: Option<(EntryKind, u64)>) -> (walk: bool)
        requires
            old(self).files < u64::MAX,
            found matches Some((_, len)) ==> old(self).bytes + len <= u64::MAX,
        ensures
            walk == (found matches Some((EntryKind::Directory, _))),
            *final(self) == match found {
                Some((EntryKind::Directory, _)) => *old(self),
                Some((_, len)) => with_file(*old(self), len),
                None => *old(self),
            },
    {
        match found {
            Some((kind, len)) => {
                if kind == EntryKind::Directory {
                    true
                } else {
                    self.files = self.files + 1;
                    self.bytes = self.bytes + len;
                    false
                }
            },
            None => false,
        }
    }

    /// Takes an entry of a walk into account: the size of a regular file, and
    /// nothing for what is no regular file or could not be read.
    pub fn walked(&mut self, file: Option<u64>)
        requires
            old(self).files < u64::MAX,
            file matches Some(len) ==> old(self).bytes + len <= u64::MAX,
        ensures
            *final(self) == match file {
                Some(len) => with_file(*old(self), len),
                None => *old(self),
            },
    {
        match file {
            Some(len) => {
                self.files = self.files + 1;
                self.bytes = self.bytes + len;
            },
            None => {},
        }
    }
}

} // verus!
