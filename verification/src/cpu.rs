//! CPU thread count management.
use vstd::prelude::*;

verus! {

/// `ceil(n * 3 / 4)`: 75% of `n`, rounded up.
pub open spec fn three_quarters_up(n: nat) -> nat {
    (n - n / 4) as nat
}

/// `ceil(n * 3 / 2)`: 150% of `n`, rounded up, capped at `usize::MAX`.
pub open spec fn one_and_half_up(n: nat) -> nat {
    let v = n + (n + 1) / 2;
    if v > usize::MAX {
        usize::MAX as nat
    } else {
        v as nat
    }
}

/// `v` clamped into `lo..=hi`.
pub open spec fn clamp(v: nat, lo: nat, hi: nat) -> nat {
    if v < lo {
        lo
    } else if v > hi {
        hi
    } else {
        v
    }
}

/// The thread count for a machine with `total` CPUs.
pub open spec fn thread_count(total: nat, requested: Option<usize>) -> nat {
    let wanted = match requested {
        Some(r) => r as nat,
        None => three_quarters_up(total),
    };
    clamp(wanted, 1, one_and_half_up(total))
}

/// The number of CPUs available to this process (`num_cpus::get`). Its
/// documentation promises at least one; the value depends on the machine and
/// is not stated otherwise.
#[verifier::external_body]
pub(crate) fn available_cpus() -> (n: usize)
    ensures
        n >= 1,
{
    num_cpus::get()
}

/// CPU thread count management utilities.
pub struct CpuControl;

impl CpuControl {
    /// Calculates the optimal thread count for parallel processing.
    ///
    /// Defaults to 75% of available cores if no specific count is requested.
    /// Clamps the result between 1 and 150% of available cores.
    pub fn get_thread_count(requested: Option<usize>) -> (r: usize)
        ensures
            exists|total: usize| total >= 1 && r == thread_count(total as nat, requested),
    {
        let total = available_cpus();
        Self::thread_count_for(total, requested)
    }

    /// The thread count for a machine with `total` CPUs: the request, or 75%
    /// of `total` rounded up, clamped between 1 and 150% of `total` rounded up.
    pub fn thread_count_for(total: usize, requested: Option<usize>) -> (r: usize)
        requires
            total >= 1,
        ensures
            r == thread_count(total as nat, requested),
            1 <= r <= one_and_half_up(total as nat),
    {
        let default_threads = total - total / 4;
        let half_up = total / 2 + total % 2;
        let max_limit = if total > usize::MAX - half_up {
            usize::MAX
        } else {
            total + half_up
        };
        assert((total as nat + 1) / 2 == total / 2 + total % 2) by (nonlinear_arith);
        let wanted = match requested {
            Some(req) => req,
            None => default_threads,
        };
        if wanted < 1 {
            1
        } else if wanted > max_limit {
            max_limit
        } else {
            wanted
        }
    }
}

} // verus!
