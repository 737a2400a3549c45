//! Free and total space of a file system.
use vstd::prelude::*;

verus! {

/// Bytes that are free for the user, and bytes in all.
#[derive(Clone, Copy, Debug, PartialEq, Eq, Structural)]
pub struct DiskSpace {
    pub free: u64,
    pub total: u64,
}

impl Default for DiskSpace {
    fn default() -> (r: Self)
        ensures
            r == (DiskSpace { free: 0, total: 0 }),
    {
        DiskSpace { free: 0, total: 0 }
    }
}

/// The space of a file system from its fragment size, the blocks available to
/// the user and all blocks. Nothing where the system call failed.
pub fn query(answer: Option<(u64, u64, u64)>) -> (r: Option<DiskSpace>)
    requires
        answer matches Some((block, available, blocks)) ==> available * block <= u64::MAX && blocks
            * block <= u64::MAX,
    ensures
        match answer {
            Some((block, available, blocks)) => r == Some(
                DiskSpace { free: (available * block) as u64, total: (blocks * block) as u64 },
            ),
            None => r is None,
        },
{
    match answer {
        Some((block, available, blocks)) => Some(
            DiskSpace { free: available * block, total: blocks * block },
        ),
        None => None,
    }
}

} // verus!
