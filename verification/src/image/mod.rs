//! Image conversion, CBZ archiving and quality reporting.
use vstd::prelude::*;

use crate::paths::{extension, MPath, PathView};
use crate::text::{ascii_case_equal, eq_ignore_ascii_case};

pub mod animation;
pub mod archive;
pub mod convert;
pub mod quality;
pub mod report;

pub use crate::summary::{ArchiveSummary, ConversionSummary};

verus! {

/// Unified error type for all image and archive operations. Errors that
/// come from the file system or from codecs carry their message.
#[derive(Debug)]
pub enum ImageError {
    SourceNotFound(MPath),
    InvalidFilename(MPath),
    NonUtf8Filename(MPath),
    ThreadPoolError(String),
    CanonicalizationError(MPath, String),
    Io(String),
    Zip(String),
    Image(String),
    AvifEncoding(String),
    Template(String),
    NoCurrentDir,
    NoImagesFound(MPath),
    VerificationFailed(MPath),
    DimensionMismatch((u32, u32), (u32, u32)),
}

/// The abstract value of an `ImageError`.
pub enum ImageErrorView {
    SourceNotFound(PathView),
    InvalidFilename(PathView),
    NonUtf8Filename(PathView),
    ThreadPoolError(Seq<char>),
    CanonicalizationError(PathView, Seq<char>),
    Io(Seq<char>),
    Zip(Seq<char>),
    Image(Seq<char>),
    AvifEncoding(Seq<char>),
    Template(Seq<char>),
    NoCurrentDir,
    NoImagesFound(PathView),
    VerificationFailed(PathView),
    DimensionMismatch((u32, u32), (u32, u32)),
}

impl View for ImageError {
    type V = ImageErrorView;

    open spec fn view(&self) -> ImageErrorView {
        match self {
            ImageError::SourceNotFound(p) => ImageErrorView::SourceNotFound(p@),
            ImageError::InvalidFilename(p) => ImageErrorView::InvalidFilename(p@),
            ImageError::NonUtf8Filename(p) => ImageErrorView::NonUtf8Filename(p@),
            ImageError::ThreadPoolError(s) => ImageErrorView::ThreadPoolError(s@),
            ImageError::CanonicalizationError(p, s) => ImageErrorView::CanonicalizationError(p@, s@),
            ImageError::Io(s) => ImageErrorView::Io(s@),
            ImageError::Zip(s) => ImageErrorView::Zip(s@),
            ImageError::Image(s) => ImageErrorView::Image(s@),
            ImageError::AvifEncoding(s) => ImageErrorView::AvifEncoding(s@),
            ImageError::Template(s) => ImageErrorView::Template(s@),
            ImageError::NoCurrentDir => ImageErrorView::NoCurrentDir,
            ImageError::NoImagesFound(p) => ImageErrorView::NoImagesFound(p@),
            ImageError::VerificationFailed(p) => ImageErrorView::VerificationFailed(p@),
            ImageError::DimensionMismatch(a, b) => ImageErrorView::DimensionMismatch(*a, *b),
        }
    }
}

/// Command-line arguments for image quality analysis (SSIMULACRA2).
pub struct QualityArgs {
    /// Original reference image or archive (CBZ)
    pub original: MPath,
    /// Distorted/encoded image or directory
    pub distorted: MPath,
    /// Target image format to look for in destination directory
    pub format: String,
}

/// An image that the general decoder cannot open is decoded again as AVIF
/// when its extension is `avif` in any ASCII case.
pub open spec fn avif_fallback(p: PathView) -> bool {
    match extension(p) {
        Some(e) => ascii_case_equal(e, "avif"@),
        None => false,
    }
}

/// Whether a failed image load is retried with the AVIF decoder.
pub fn retries_as_avif(path: &MPath) -> (b: bool)
    ensures
        b == avif_fallback(path@),
{
    match path.extension() {
        Some(e) => eq_ignore_ascii_case(e.as_str(), "avif"),
        None => false,
    }
}

} // verus!
