use vstd::prelude::*;

verus! {

/// How many consecutive quiet seconds the watched directory must show before
/// a launched app counts as finished.
pub const WATCH_DIR_MAX_SECONDS: u64 = 3;

/// One tick of the quiescence countdown that follows a launched app: a
/// second passes, and the count of quiet seconds either resets because some
/// running process still lives under the watched directory, or grows by one.
pub fn update_watch_countdown(seconds_without_exe: u64, process_in_watch_dir: bool) -> (r: u64)
    requires
        seconds_without_exe < WATCH_DIR_MAX_SECONDS,
    ensures
        r == if process_in_watch_dir {
            0u64
        } else {
            (seconds_without_exe + 1) as u64
        },
{
    if process_in_watch_dir {
        0
    } else {
        seconds_without_exe + 1
    }
}

/// Whether the countdown has seen enough consecutive quiet seconds to let
/// the run proceed.
pub fn is_watch_settled(seconds_without_exe: u64) -> (r: bool)
    ensures
        r == (seconds_without_exe >= WATCH_DIR_MAX_SECONDS),
{
    seconds_without_exe >= WATCH_DIR_MAX_SECONDS
}

} // verus!
