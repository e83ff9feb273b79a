//! The end of the process that the proxy wraps.

use vstd::prelude::*;

verus! {

/// The exit code when the process could not be started.
pub const NOT_STARTED: i32 = 127;

/// The exit code to end with after the process ended: its own; where a signal ended it, 128 and
/// the number of that signal; else 1.
pub fn exit_code(code: Option<i32>, signal: Option<i32>) -> (r: i32)
    requires
        signal matches Some(n) ==> 0 <= n <= i32::MAX - 128,
    ensures
        r == (match code {
            Some(c) => c as int,
            None => match signal {
                Some(n) => 128 + n,
                None => 1,
            },
        }),
{
    match code {
        Some(c) => c,
        None => match signal {
            Some(n) => 128 + n,
            None => 1,
        },
    }
}

/// A process that could not be started is told by 127, the last code before those of signals.
pub proof fn not_started_comes_before_the_signals(code: i32)
    ensures
        code > NOT_STARTED <==> code >= 128,
{
}

} // verus!
