//! Application-wide constants, and the sizes the tool derives from them.
use vstd::prelude::*;

verus! {

/// Channel buffer multiplier for work distribution.
pub const CHANNEL_BUFFER_MULTIPLIER: usize = 2;

/// Maximum spinner count for analysis phase.
pub const MAX_ANALYSIS_SPINNERS: usize = 8;

/// Report channel buffer size.
pub const REPORT_CHANNEL_CAPACITY: usize = 1000;

/// VMAF error log path.
pub const VMAF_ERROR_LOG: &'static str = "media-forge-vmaf-error.log";

/// Progress bar tick interval in milliseconds.
pub const SPINNER_TICK_MS: u64 = 100;

/// Default quality for image conversion.
pub const DEFAULT_IMAGE_QUALITY: u8 = 80;

/// Default speed for AVIF encoding.
pub const DEFAULT_AVIF_SPEED: u8 = 4;

/// Default recursion depth for file scanning.
pub const DEFAULT_RECURSION_DEPTH: usize = 2;

/// Default CQ level for video encoding.
pub const DEFAULT_VIDEO_CQ: u8 = 28;

/// Default VMAF analysis duration in seconds.
pub const DEFAULT_VMAF_DURATION: u64 = 60;

/// The number of progress spinners shown for `workers` parallel workers:
/// one each, at most `MAX_ANALYSIS_SPINNERS`.
pub fn spinner_count(workers: usize) -> (n: usize)
    ensures
        n == if workers < MAX_ANALYSIS_SPINNERS {
            workers
        } else {
            MAX_ANALYSIS_SPINNERS
        },
{
    if workers < MAX_ANALYSIS_SPINNERS {
        workers
    } else {
        MAX_ANALYSIS_SPINNERS
    }
}

/// The capacity of the queue that feeds `workers` conversion workers.
pub fn work_queue_capacity(workers: usize) -> (n: usize)
    requires
        workers * CHANNEL_BUFFER_MULTIPLIER <= usize::MAX,
    ensures
        n == workers * CHANNEL_BUFFER_MULTIPLIER,
{
    workers * CHANNEL_BUFFER_MULTIPLIER
}

} // verus!
