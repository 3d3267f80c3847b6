use vstd::prelude::*;

use crate::text::concat3;

verus! {

/// How long the interface waits before drawing again, in nanoseconds.
pub const RENDER_INTERVAL_NS: u64 = 10_000_000;

/// The wait before the next frame, given the nanoseconds since the last one:
/// what is left of the interval, or `None` when it has run out (draw now).
pub fn render_timeout(elapsed_ns: u64) -> (r: Option<u64>)
    ensures
        r == (if elapsed_ns <= RENDER_INTERVAL_NS {
            Some((RENDER_INTERVAL_NS - elapsed_ns) as u64)
        } else {
            None::<u64>
        }),
{
    if elapsed_ns <= RENDER_INTERVAL_NS {
        Some(RENDER_INTERVAL_NS - elapsed_ns)
    } else {
        None
    }
}

/// Why a data directory given on the command line is refused.
#[derive(Debug, PartialEq, Eq)]
pub enum BaseDirError {
    Missing,
    NotADirectory,
}

impl BaseDirError {
    /// The message shown for the error, about the directory shown as `shown`.
    pub fn message(&self, shown: &str) -> (r: String)
        ensures
            r@ == match self {
                BaseDirError::Missing => shown@ + " does NOT exists"@,
                BaseDirError::NotADirectory => shown@ + " is not a dir"@,
            },
    {
        proof {
            reveal_strlit("");
            assert(""@ =~= Seq::<char>::empty());
        }
        match self {
            BaseDirError::Missing => concat3(shown, " does NOT exists", ""),
            BaseDirError::NotADirectory => concat3(shown, " is not a dir", ""),
        }
    }
}

/// Whether a data directory given on the command line can be used: it must
/// exist, and be a directory.
pub fn check_base_dir(exists: bool, is_dir: bool) -> (r: Result<(), BaseDirError>)
    ensures
        r == (if !exists {
            Err::<(), BaseDirError>(BaseDirError::Missing)
        } else if !is_dir {
            Err::<(), BaseDirError>(BaseDirError::NotADirectory)
        } else {
            Ok::<(), BaseDirError>(())
        }),
{
    if !exists {
        return Err(BaseDirError::Missing);
    }
    if !is_dir {
        return Err(BaseDirError::NotADirectory);
    }
    Ok(())
}

} // verus!
