//! Aggregated results of a batch conversion or archival run.
use vstd::prelude::*;

use crate::paths::{MPath, PathView};

verus! {

/// The outcome of one task: the source path and either `Ok(kept)`, where
/// `kept` says that an existing output was kept and nothing was converted, or
/// the error text.
pub type Outcome = (MPath, Result<bool, String>);

/// Number of outcomes that are `Ok(kept)` for the given `kept`: converted
/// files for `false`, skipped ones for `true`.
pub open spec fn count_ok(rs: Seq<Outcome>, kept: bool) -> nat
    decreases rs.len(),
{
    if rs.len() == 0 {
        0
    } else {
        count_ok(rs.drop_last(), kept) + if rs.last().1 == Ok::<bool, String>(kept) {
            1nat
        } else {
            0nat
        }
    }
}

/// The failed outcomes, in order, as (path, error text).
pub open spec fn failures(rs: Seq<Outcome>) -> Seq<(PathView, Seq<char>)>
    decreases rs.len(),
{
    if rs.len() == 0 {
        Seq::empty()
    } else {
        failures(rs.drop_last()) + match rs.last().1 {
            Ok(_) => Seq::<(PathView, Seq<char>)>::empty(),
            Err(e) => seq![(rs.last().0@, e@)],
        }
    }
}

/// The view of a failure list.
pub open spec fn failed_view(f: Seq<(MPath, String)>) -> Seq<(PathView, Seq<char>)> {
    f.map_values(|x: (MPath, String)| (x.0@, x.1@))
}

/// `a - b`, or zero when `b` is larger.
pub open spec fn saturating_sub(a: u64, b: u64) -> u64 {
    if a >= b {
        (a - b) as u64
    } else {
        0
    }
}

/// The sum of some sizes, capped at `u64::MAX`.
pub open spec fn capped_sum(sizes: Seq<u64>) -> nat
    decreases sizes.len(),
{
    if sizes.len() == 0 {
        0
    } else {
        let s = capped_sum(sizes.drop_last()) + sizes.last();
        if s > u64::MAX {
            u64::MAX as nat
        } else {
            s as nat
        }
    }
}

/// The total size of the files of a tree, given their sizes: their sum,
/// capped at `u64::MAX`.
pub fn total_bytes(sizes: &Vec<u64>) -> (t: u64)
    ensures
        t == capped_sum(sizes@),
{
    let mut t: u64 = 0;
    let mut i: usize = 0;
    while i < sizes.len()
        invariant
            i <= sizes@.len(),
            t == capped_sum(sizes@.take(i as int)),
        decreases sizes@.len() - i,
    {
        assert(sizes@.take(i + 1).drop_last() =~= sizes@.take(i as int));
        t = t.saturating_add(sizes[i]);
        i = i + 1;
    }
    assert(sizes@.take(i as int) =~= sizes@);
    t
}

/// Holds aggregated results of a batch conversion process.
pub struct ConversionSummary {
    /// Total number of assets processed.
    pub total: usize,
    /// Number of successfully converted files.
    pub succeeded: usize,
    /// Number of files skipped (e.g., already exists).
    pub skipped: usize,
    /// List of paths and their associated error messages for failed conversions.
    pub failed: Vec<(MPath, String)>,
    /// Total size of source directory in bytes.
    pub original_size: u64,
    /// Total size of destination directory in bytes.
    pub final_size: u64,
}

impl ConversionSummary {
    /// The summary of a run over `total` files whose task outcomes are
    /// `results`: conversions and kept outputs are counted apart and failures
    /// listed in order; sizes start at zero.
    pub fn tally(total: usize, results: &Vec<Outcome>) -> (s: ConversionSummary)
        ensures
            s.total == total,
            s.succeeded == count_ok(results@, false),
            s.skipped == count_ok(results@, true),
            failed_view(s.failed@) == failures(results@),
            s.original_size == 0,
            s.final_size == 0,
    {
        let mut succeeded: usize = 0;
        let mut skipped: usize = 0;
        let mut failed: Vec<(MPath, String)> = Vec::new();
        let n = results.len();
        let mut i: usize = 0;
        let ghost rs = results@;
        while i < n
            invariant
                n == rs.len(),
                rs == results@,
                i <= n,
                succeeded == count_ok(rs.take(i as int), false),
                skipped == count_ok(rs.take(i as int), true),
                succeeded + skipped <= i,
                failed_view(failed@) == failures(rs.take(i as int)),
            decreases n - i,
        {
            assert(rs.take(i + 1).drop_last() =~= rs.take(i as int));
            let ghost old_failed = failed@;
            match &results[i].1 {
                Ok(kept) => {
                    if *kept {
                        skipped = skipped + 1;
                    } else {
                        succeeded = succeeded + 1;
                    }
                },
                Err(e) => {
                    let path = results[i].0.duplicate();
                    failed.push((path, e.clone()));
                    assert(failed_view(failed@) =~= failed_view(old_failed).push(
                        (rs[i as int].0@, rs[i as int].1->Err_0@),
                    ));
                },
            }
            i = i + 1;
            assert(failed_view(failed@) =~= failures(rs.take(i as int)));
        }
        assert(rs.take(n as int) =~= rs);
        ConversionSummary { total, succeeded, skipped, failed, original_size: 0, final_size: 0 }
    }

    /// Returns a non-zero exit code if any conversions failed.
    pub fn exit_code(&self) -> (code: i32)
        ensures
            code == (if self.failed@.len() == 0 {
                0i32
            } else {
                1i32
            }),
    {
        if self.failed.len() == 0 {
            0
        } else {
            1
        }
    }

    /// Bytes saved by the conversion: original size minus final size, or
    /// zero when the output grew.
    pub fn saved_bytes(&self) -> (b: u64)
        ensures
            b == saturating_sub(self.original_size, self.final_size),
    {
        self.original_size.saturating_sub(self.final_size)
    }
}

/// Holds aggregated results of an archive creation process.
pub struct ArchiveSummary {
    /// Total number of folders identified for archiving.
    pub total: usize,
    /// Number of successfully created archives.
    pub succeeded: usize,
    /// List of source directory paths and error messages for failed archivals.
    pub failed: Vec<(MPath, String)>,
    /// Total size of source directories in bytes.
    pub original_size: u64,
    /// Total size of generated archives in bytes.
    pub final_size: u64,
}

impl ArchiveSummary {
    /// Returns a non-zero exit code if any archivals failed.
    pub fn exit_code(&self) -> (code: i32)
        ensures
            code == (if self.failed@.len() == 0 {
                0i32
            } else {
                1i32
            }),
    {
        if self.failed.len() == 0 {
            0
        } else {
            1
        }
    }

    /// Bytes saved by archiving: original size minus final size, or zero
    /// when the archives are larger.
    pub fn saved_bytes(&self) -> (b: u64)
        ensures
            b == saturating_sub(self.original_size, self.final_size),
    {
        self.original_size.saturating_sub(self.final_size)
    }
}

/// Every outcome is counted once: as a conversion, as a kept output or as a
/// listed failure.
pub proof fn law_tally_counts_every_outcome(rs: Seq<Outcome>)
    ensures
        count_ok(rs, false) + count_ok(rs, true) + failures(rs).len() == rs.len(),
    decreases rs.len(),
{
    if rs.len() > 0 {
        law_tally_counts_every_outcome(rs.drop_last());
        match rs.last().1 {
            Ok(kept) => {
                assert(rs.last().1 == Ok::<bool, String>(kept));
                assert(rs.last().1 != Ok::<bool, String>(!kept));
            },
            Err(_) => {},
        }
    }
}

} // verus!
