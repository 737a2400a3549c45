//! Watching the current directory: which directory is watched, and one refresh
//! for a burst of changes.
use crate::types::{Location, Place};
use crate::unix_path::UnixPath;
use crate::user_dirs::opt_path;
use vstd::prelude::*;

verus! {

/// How long a burst of changes is waited out, in milliseconds.
pub const DEBOUNCE_MS: u64 = 300;

/// What is watched.
pub struct WatcherState {
    /// Whether a watch is in place.
    pub attached: bool,
    pub watched_path: Option<UnixPath>,
    pub enabled: bool,
    pub dirty_tick: u64,
}

/// What is to be done about the watch.
#[derive(Debug)]
pub enum WatchStep {
    Nothing,
    /// Drop the watch that is in place and watch this directory.
    Attach(UnixPath),
    /// Drop the watch.
    Detach,
}

impl WatcherState {
    /// Nothing is watched until it is asked for.
    pub fn new() -> (r: Self)
        ensures
            !r.attached,
            r.watched_path is None,
            !r.enabled,
            r.dirty_tick == 0,
    {
        WatcherState { attached: false, watched_path: None, enabled: false, dirty_tick: 0 }
    }

    /// Goes over to another directory. Where watching is off, the directory is
    /// only remembered.
    pub fn set_path(&mut self, path: UnixPath) -> (r: WatchStep)
        ensures
            opt_path(final(self).watched_path) == Some(path@),
            final(self).enabled == old(self).enabled,
            final(self).dirty_tick == old(self).dirty_tick,
            if old(self).enabled {
                (r matches WatchStep::Attach(p) && p@ == path@) && !final(self).attached
            } else {
                r is Nothing && final(self).attached == old(self).attached
            },
    {
        let copy = path.clone();
        self.watched_path = Some(path);
        if self.enabled {
            self.attached = false;
            WatchStep::Attach(copy)
        } else {
            WatchStep::Nothing
        }
    }

    /// Turns watching on, for the last known directory, or off.
    pub fn set_enabled(&mut self, enabled: bool) -> (r: WatchStep)
        ensures
            final(self).enabled == enabled,
            final(self).watched_path == old(self).watched_path,
            final(self).dirty_tick == old(self).dirty_tick,
            if old(self).enabled == enabled {
                r is Nothing && final(self).attached == old(self).attached
            } else if enabled {
                match old(self).watched_path {
                    Some(p) => (r matches WatchStep::Attach(q) && q@ == p@)
                        && !final(self).attached,
                    None => r is Nothing && final(self).attached == old(self).attached,
                }
            } else {
                r is Detach && !final(self).attached
            },
    {
        if self.enabled == enabled {
            return WatchStep::Nothing;
        }
        self.enabled = enabled;
        if enabled {
            match &self.watched_path {
                Some(p) => {
                    let q = p.clone();
                    self.attached = false;
                    WatchStep::Attach(q)
                },
                None => WatchStep::Nothing,
            }
        } else {
            self.attached = false;
            WatchStep::Detach
        }
    }

    /// Says that a watch is in place.
    pub fn attached(&mut self)
        ensures
            final(self).attached,
            final(self).watched_path == old(self).watched_path,
            final(self).enabled == old(self).enabled,
            final(self).dirty_tick == old(self).dirty_tick,
    {
        self.attached = true;
    }

    /// Notes a change. Returns its number, to be handed to
    /// [`WatcherState::fires`] once the burst was waited out.
    pub fn changed(&mut self) -> (tick: u64)
        ensures
            tick == final(self).dirty_tick,
            final(self).dirty_tick == if old(self).dirty_tick == u64::MAX {
                0
            } else {
                old(self).dirty_tick + 1
            },
            final(self).attached == old(self).attached,
            final(self).watched_path == old(self).watched_path,
            final(self).enabled == old(self).enabled,
    {
        self.dirty_tick = if self.dirty_tick == u64::MAX {
            0
        } else {
            self.dirty_tick + 1
        };
        self.dirty_tick
    }

    /// Whether a change leads to a refresh: no later one arrived meanwhile.
    pub fn fires(&self, tick: u64) -> (r: bool)
        ensures
            r == (tick == self.dirty_tick),
    {
        tick == self.dirty_tick
    }
}

/// The number of the last change after `n` more changes.
pub open spec fn tick_after(tick: int, n: int) -> int {
    (tick + n) % 0x1_0000_0000_0000_0000
}

/// Of a burst of changes only the last leads to a refresh.
pub proof fn only_the_last_change_fires(tick: u64, n: int)
    requires
        0 < n < 0x1_0000_0000_0000_0000,
    ensures
        tick_after(tick as int, n) != tick,
{
}

/// The kinds of changes that are reported.
#[derive(Clone, Copy, Debug, PartialEq, Eq, Structural)]
pub enum ChangeKind {
    Created,
    Removed,
    Modified,
    Accessed,
    Unknown,
    Other,
}

/// Whether a change can show in a listing.
pub fn is_interesting(kind: ChangeKind) -> (r: bool)
    ensures
        r == (kind == ChangeKind::Created || kind == ChangeKind::Removed || kind
            == ChangeKind::Modified || kind == ChangeKind::Unknown),
{
    match kind {
        ChangeKind::Created
        | ChangeKind::Removed
        | ChangeKind::Modified
        | ChangeKind::Unknown => true,
        ChangeKind::Accessed | ChangeKind::Other => false,
    }
}

/// The directory to watch once a place is listed: none for the trash.
pub fn on_navigated(target: &Location) -> (r: Option<UnixPath>)
    ensures
        opt_path(r) == match target@ {
            Place::Local(b) => Some(b),
            Place::Trash => None,
        },
{
    match target {
        Location::Local(p) => Some(p.clone()),
        Location::Trash => None,
    }
}

} // verus!
