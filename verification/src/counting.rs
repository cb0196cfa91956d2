//! Counts that wrap around.

use vstd::prelude::*;

verus! {

/// One more, wrapping around.
pub open spec fn next_u64(n: u64) -> u64 {
    if n == u64::MAX {
        0
    } else {
        (n + 1) as u64
    }
}

/// One more, wrapping around.
pub open spec fn next_usize(n: usize) -> usize {
    if n == usize::MAX {
        0
    } else {
        (n + 1) as usize
    }
}

/// One fewer, wrapping around.
pub open spec fn previous_usize(n: usize) -> usize {
    if n == 0 {
        usize::MAX
    } else {
        (n - 1) as usize
    }
}

/// Below the largest count one more is one more, and one fewer undoes one more, at any count.
pub proof fn law_counting_back_undoes_counting(n: u64, m: usize)
    ensures
        n < u64::MAX ==> next_u64(n) == n + 1,
        next_u64(u64::MAX) == 0,
        m < usize::MAX ==> next_usize(m) == m + 1,
        previous_usize(next_usize(m)) == m,
        next_usize(previous_usize(m)) == m,
{
}

} // verus!
