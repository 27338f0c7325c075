//! The checks made before two images are compared.
use vstd::prelude::*;

use crate::image::{ImageError, ImageErrorView};

verus! {

/// Two images can only be compared when their dimensions match; otherwise
/// the error names both sizes, the original's first.
pub fn check_dimensions(original: (u32, u32), distorted: (u32, u32)) -> (r: Result<(), ImageError>)
    ensures
        original == distorted ==> r is Ok,
        original != distorted ==> (r matches Err(e) && e@ == ImageErrorView::DimensionMismatch(original, distorted)),
{
    if original.0 != distorted.0 || original.1 != distorted.1 {
        return Err(ImageError::DimensionMismatch(original, distorted));
    }
    Ok(())
}

/// The outcome of a quality run from the dimensions of the pairs it
/// compared, in order: images of different sizes are reported, not scored,
/// so the run fails with the first pair whose sizes differ; when every pair
/// matches, it succeeds.
pub fn quality_outcome(dims: &Vec<((u32, u32), (u32, u32))>) -> (r: Result<(), ImageError>)
    ensures
        r is Ok <==> forall|i: int| 0 <= i < dims@.len() ==> (#[trigger] dims@[i]).0 == dims@[i].1,
        r matches Err(e) ==> exists|i: int|
            0 <= i < dims@.len() && (#[trigger] dims@[i]).0 != dims@[i].1 && (forall|j: int|
                0 <= j < i ==> (#[trigger] dims@[j]).0 == dims@[j].1) && e@
                == ImageErrorView::DimensionMismatch(dims@[i].0, dims@[i].1),
{
    let n = dims.len();
    let mut i: usize = 0;
    while i < n
        invariant
            n == dims@.len(),
            i <= n,
            forall|j: int| 0 <= j < i ==> (#[trigger] dims@[j]).0 == dims@[j].1,
        decreases n - i,
    {
        let (original, distorted) = dims[i];
        match check_dimensions(original, distorted) {
            Ok(()) => {},
            Err(e) => {
                assert(dims@[i as int].0 != dims@[i as int].1);
                return Err(e);
            },
        }
        i = i + 1;
    }
    Ok(())
}

} // verus!
