//! The fatal tier of error handling. A process built around this
//! reactor cannot recover from a runtime fault or a failed allocation:
//! it reports a diagnostic and terminates with a nonzero status. The
//! functions here fix those statuses; the process around the core does
//! the actual exiting.

use vstd::prelude::*;

verus! {

/// The exit status of a process that hit an unrecoverable runtime
/// fault. Never zero: a fatal fault must not look like success.
pub fn panic() -> (code: i32)
    ensures
        code != 0,
{
    101
}

/// The exit status of a process whose allocator failed: the one fault
/// that cannot even allocate a message. Never zero either.
pub fn alloc_error_handler() -> (code: i32)
    ensures
        code != 0,
{
    102
}

} // verus!
