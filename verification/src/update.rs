//! How much an update fetched, and how fast.

use vstd::prelude::*;

verus! {

/// The sum of the first `k` sizes.
pub open spec fn total_upto(sizes: Seq<u64>, k: int) -> int
    decreases k,
{
    if k <= 0 {
        0
    } else {
        total_upto(sizes, k - 1) + sizes[k - 1]
    }
}

/// The number of bytes that were fetched in all; `None` where it does not
/// fit in 64 bits.
pub fn fetched_amount(sizes: &Vec<u64>) -> (r: Option<u64>)
    ensures
        match r {
            Some(n) => n == total_upto(sizes@, sizes.len() as int),
            None => total_upto(sizes@, sizes.len() as int) > u64::MAX,
        },
{
    let mut sum: u64 = 0;
    let mut k: usize = 0;
    while k < sizes.len()
        invariant
            k <= sizes.len(),
            sum == total_upto(sizes@, k as int),
        decreases sizes.len() - k,
    {
        if sizes[k] > u64::MAX - sum {
            proof {
                lemma_total_grows(sizes@, k + 1, sizes.len() as int);
            }
            return None;
        }
        sum = sum + sizes[k];
        k += 1;
    }
    Some(sum)
}

proof fn lemma_total_grows(sizes: Seq<u64>, k: int, n: int)
    requires
        0 <= k <= n,
    ensures
        total_upto(sizes, k) <= total_upto(sizes, n),
    decreases n - k,
{
    if k < n {
        lemma_total_grows(sizes, k, n - 1);
    }
}

/// What an update reports: the kilobytes that were fetched and the
/// kilobytes for each second, which are all of them where the update took
/// less than a second.
pub fn transfer_rate(fetched: u64, seconds: u64) -> (r: (u64, u64))
    ensures
        r.0 == fetched / 1024,
        r.1 == (if seconds == 0 {
            fetched / 1024
        } else {
            (fetched / 1024) / seconds
        }),
{
    let kb = fetched / 1024;
    let bps = if seconds == 0 {
        kb
    } else {
        kb / seconds
    };
    (kb, bps)
}

} // verus!
