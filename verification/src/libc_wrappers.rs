//! Waiting for a process with a time limit.

use crate::stages::test_registry::TimeLimit;
use vstd::prelude::*;

verus! {

/// What to do after a look at whether a process has ended.
#[derive(Debug, Clone, Copy, PartialEq, Eq, Structural)]
pub enum ChildWait {
    /// look again at once
    Retry,
    /// look again after this many nanoseconds
    SleepFor(u64),
    /// nothing, the time is up
    TimedOut,
    /// nothing, the process has ended
    Exited,
    /// nothing, looking failed
    Failed,
    /// nothing, another process was reported
    UnexpectedPid,
}

/// A length of time in nanoseconds.
pub open spec fn nanoseconds(t: TimeLimit) -> nat {
    (t.secs * 1_000_000_000 + t.nanos) as nat
}

/// how long to wait at most between two looks: A small polling interval prevents 100% CPU usage
/// while keeping responsiveness high.
pub const POLL_PAUSE_NANOS: u64 = 50_000_000;

/// What to do after a look at whether the process `pid` has ended, which returned `res`. A
/// failed look that was only `interrupted` is repeated. `elapsed` is the time since the first
/// look.
pub fn get_child_exit_code_with_timeout(
    pid: i32,
    res: i32,
    interrupted: bool,
    elapsed: TimeLimit,
    timeout: TimeLimit,
) -> (r: ChildWait)
    ensures
        r == if res == -1 {
            if interrupted {
                ChildWait::Retry
            } else {
                ChildWait::Failed
            }
        } else if res == 0 {
            if nanoseconds(elapsed) >= nanoseconds(timeout) {
                ChildWait::TimedOut
            } else if nanoseconds(timeout) - nanoseconds(elapsed) < POLL_PAUSE_NANOS {
                ChildWait::SleepFor((nanoseconds(timeout) - nanoseconds(elapsed)) as u64)
            } else {
                ChildWait::SleepFor(POLL_PAUSE_NANOS)
            }
        } else if res == pid {
            ChildWait::Exited
        } else {
            ChildWait::UnexpectedPid
        },
{
    if res == -1 {
        if interrupted {
            return ChildWait::Retry;
        }
        return ChildWait::Failed;
    }
    if res == 0 {
        let spent: u128 = elapsed.secs as u128 * 1_000_000_000 + elapsed.nanos as u128;
        let allowed: u128 = timeout.secs as u128 * 1_000_000_000 + timeout.nanos as u128;
        if spent >= allowed {
            return ChildWait::TimedOut;
        }
        let remains = allowed - spent;
        return if remains < POLL_PAUSE_NANOS as u128 {
            ChildWait::SleepFor(remains as u64)
        } else {
            ChildWait::SleepFor(POLL_PAUSE_NANOS)
        };
    }
    if res == pid {
        return ChildWait::Exited;
    }
    ChildWait::UnexpectedPid
}

/// When a process is looked at again: never after the time limit and always some time later, unless
/// the look was only interrupted. Its time is up exactly if it still runs and all of the time was
/// spent, and it has ended exactly if its own number was reported.
pub proof fn law_waiting_ends_in_time(
    pid: i32,
    res: i32,
    interrupted: bool,
    elapsed: TimeLimit,
    timeout: TimeLimit,
    wait: ChildWait,
)
    requires
        pid > 0,
        call_ensures(
            get_child_exit_code_with_timeout,
            (pid, res, interrupted, elapsed, timeout),
            wait,
        ),
    ensures
        wait matches ChildWait::SleepFor(pause) ==> 0 < pause <= 50_000_000 && elapsed.secs
            * 1_000_000_000 + elapsed.nanos + pause <= timeout.secs * 1_000_000_000
            + timeout.nanos,
        wait is SleepFor || wait is TimedOut <==> res == 0,
        wait is TimedOut ==> elapsed.secs * 1_000_000_000 + elapsed.nanos >= timeout.secs
            * 1_000_000_000 + timeout.nanos,
        wait is Exited <==> res == pid,
        wait is Retry <==> res == -1 && interrupted,
        wait is Failed <==> res == -1 && !interrupted,
{
}

/// Sleeping between two looks never goes past the time limit.
pub proof fn law_sleep_ends_in_time(elapsed: TimeLimit, timeout: TimeLimit)
    requires
        nanoseconds(elapsed) < nanoseconds(timeout),
    ensures
        ({
            let remains = nanoseconds(timeout) - nanoseconds(elapsed);
            let pause = if remains < POLL_PAUSE_NANOS {
                remains
            } else {
                POLL_PAUSE_NANOS as int
            };
            0 < pause && nanoseconds(elapsed) + pause <= nanoseconds(timeout)
        }),
{
}

} // verus!
