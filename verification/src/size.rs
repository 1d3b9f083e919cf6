//! Directory-size aggregation.
//!
//! The walk of the directory tree happens outside the library; it hands in
//! the byte lengths of the regular files it could read (unreadable entries
//! are skipped by the walker, so they simply do not appear here). The sum is
//! computed here, saturating at `u64::MAX`.

use vstd::prelude::*;

verus! {

/// The mathematical sum of a sequence of file sizes.
pub open spec fn sum_sizes(s: Seq<u64>) -> int
    decreases s.len(),
{
    if s.len() == 0 {
        0
    } else {
        sum_sizes(s.drop_last()) + s.last()
    }
}

/// Total size of a directory, given the byte lengths of every regular file
/// found under it. Returns the exact sum whenever it fits in a `u64`, and
/// saturates at `u64::MAX` otherwise; in particular it returns 0 for an
/// empty directory.
pub fn calculate_directory_size(file_sizes: &Vec<u64>) -> (total: u64)
    ensures
        total as int == if sum_sizes(file_sizes@) <= u64::MAX as int {
            sum_sizes(file_sizes@)
        } else {
            u64::MAX as int
        },
{
    let mut total: u64 = 0;
    let mut i: usize = 0;
    while i < file_sizes.len()
        invariant
            i <= file_sizes.len(),
            total as int == if sum_sizes(file_sizes@.take(i as int)) <= u64::MAX as int {
                sum_sizes(file_sizes@.take(i as int))
            } else {
                u64::MAX as int
            },
        decreases file_sizes.len() - i,
    {
        proof {
            assert(file_sizes@.take(i + 1).drop_last() =~= file_sizes@.take(i as int));
            assert(file_sizes@.take(i + 1).last() == file_sizes@[i as int]);
        }
        total = total.saturating_add(file_sizes[i]);
        i = i + 1;
    }
    proof {
        assert(file_sizes@.take(file_sizes@.len() as int) =~= file_sizes@);
    }
    total
}

} // verus!
