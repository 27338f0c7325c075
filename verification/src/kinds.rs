//! The file kinds the tool recognises, by lowercase extension.
use vstd::prelude::*;

use crate::paths::{extension, MPath, PathView};
use crate::text::{lowercased, str_eq, to_lowercase};

verus! {

/// Supported image extensions for conversion.
pub open spec fn image_extensions() -> Seq<Seq<char>> {
    seq!["avif"@, "webp"@, "jpg"@, "jpeg"@, "png"@, "tiff"@, "bmp"@]
}

/// Supported archive extensions for image extraction.
pub open spec fn archive_extensions() -> Seq<Seq<char>> {
    seq!["zip"@, "cbz"@]
}

/// Supported video extensions.
pub open spec fn video_extensions() -> Seq<Seq<char>> {
    seq!["mp4"@, "mkv"@, "mov"@, "avi"@, "ts"@, "m4v"@, "mpv"@, "webm"@]
}

/// The views of a list of names.
pub open spec fn names_view(list: Seq<&str>) -> Seq<Seq<char>> {
    list.map_values(|s: &str| s@)
}

/// The views of a list of owned names.
pub open spec fn strings_view(list: Seq<String>) -> Seq<Seq<char>> {
    list.map_values(|s: String| s@)
}

/// Supported image extensions for conversion.
pub fn image_extension_list() -> (v: Vec<&'static str>)
    ensures
        names_view(v@) == image_extensions(),
{
    let v = vec!["avif", "webp", "jpg", "jpeg", "png", "tiff", "bmp"];
    assert(names_view(v@) =~= image_extensions());
    v
}

/// Supported archive extensions for image extraction.
pub fn archive_extension_list() -> (v: Vec<&'static str>)
    ensures
        names_view(v@) == archive_extensions(),
{
    let v = vec!["zip", "cbz"];
    assert(names_view(v@) =~= archive_extensions());
    v
}

/// Supported video extensions.
pub fn video_extension_list() -> (v: Vec<&'static str>)
    ensures
        names_view(v@) == video_extensions(),
{
    let v = vec!["mp4", "mkv", "mov", "avi", "ts", "m4v", "mpv", "webm"];
    assert(names_view(v@) =~= video_extensions());
    v
}

/// Whether `name` is one of `list`.
pub fn list_contains(list: &Vec<&str>, name: &str) -> (b: bool)
    ensures
        b == names_view(list@).contains(name@),
{
    let mut i: usize = 0;
    while i < list.len()
        invariant
            i <= list@.len(),
            forall|k: int| 0 <= k < i ==> names_view(list@)[k] != name@,
        decreases list@.len() - i,
    {
        if str_eq(list[i], name) {
            assert(names_view(list@)[i as int] == name@);
            return true;
        }
        i = i + 1;
    }
    false
}

/// Whether `name` is one of `list`.
pub fn strings_contain(list: &Vec<String>, name: &str) -> (b: bool)
    ensures
        b == strings_view(list@).contains(name@),
{
    let mut i: usize = 0;
    while i < list.len()
        invariant
            i <= list@.len(),
            forall|k: int| 0 <= k < i ==> strings_view(list@)[k] != name@,
        decreases list@.len() - i,
    {
        if str_eq(list[i].as_str(), name) {
            assert(strings_view(list@)[i as int] == name@);
            return true;
        }
        i = i + 1;
    }
    false
}

/// Whether `ext` is an image extension.
pub fn is_image_extension(ext: &str) -> (b: bool)
    ensures
        b == image_extensions().contains(ext@),
{
    list_contains(&image_extension_list(), ext)
}

/// Whether `ext` is an archive extension.
pub fn is_archive_extension(ext: &str) -> (b: bool)
    ensures
        b == archive_extensions().contains(ext@),
{
    list_contains(&archive_extension_list(), ext)
}

/// Whether `ext` is a video extension.
pub fn is_video_extension(ext: &str) -> (b: bool)
    ensures
        b == video_extensions().contains(ext@),
{
    list_contains(&video_extension_list(), ext)
}

/// The image formats that are decoded and encoded again.
pub open spec fn convertible_extensions() -> Seq<Seq<char>> {
    seq!["jpg"@, "jpeg"@, "png"@, "tiff"@, "bmp"@]
}

/// The extensions a conversion run looks for: the image formats it
/// converts or copies, and the animated formats it copies.
pub open spec fn conversion_scan_extensions() -> Seq<Seq<char>> {
    seq!["avif"@, "webp"@, "jpg"@, "jpeg"@, "png"@, "tiff"@, "bmp"@, "gif"@, "apng"@]
}

/// The extensions a conversion run looks for.
pub fn conversion_scan_list() -> (v: Vec<&'static str>)
    ensures
        names_view(v@) == conversion_scan_extensions(),
{
    let v = vec!["avif", "webp", "jpg", "jpeg", "png", "tiff", "bmp", "gif", "apng"];
    assert(names_view(v@) =~= conversion_scan_extensions());
    v
}

/// What a conversion run does with a file.
pub enum Handling {
    /// Decode it and encode it in the target format.
    Convert,
    /// Copy it without re-encoding.
    Copy,
    /// Leave it alone.
    Skip,
}

/// A file whose bytes decide how it is handled: a PNG may be an APNG, a GIF
/// may be animated.
pub open spec fn checks_animation(ext: Seq<char>) -> bool {
    ext == "png"@ || ext == "gif"@
}

/// How a file with the lowercase extension `ext` is handled: JPEG, PNG,
/// TIFF and BMP images are converted; AVIF and WebP images, APNG files and
/// animated GIF or PNG images are copied without re-encoding; anything else,
/// a still GIF or a video among them, is left alone.
pub open spec fn handling_of(ext: Seq<char>, animated: bool) -> Handling {
    if ext == "avif"@ || ext == "webp"@ || ext == "apng"@ {
        Handling::Copy
    } else if checks_animation(ext) && animated {
        Handling::Copy
    } else if convertible_extensions().contains(ext) {
        Handling::Convert
    } else {
        Handling::Skip
    }
}

/// How a file with the lowercase extension `ext` is handled.
pub fn handling(ext: &str, animated: bool) -> (h: Handling)
    ensures
        h == handling_of(ext@, animated),
{
    if str_eq(ext, "avif") || str_eq(ext, "webp") || str_eq(ext, "apng") {
        Handling::Copy
    } else if (str_eq(ext, "png") || str_eq(ext, "gif")) && animated {
        Handling::Copy
    } else {
        let v = vec!["jpg", "jpeg", "png", "tiff", "bmp"];
        assert(names_view(v@) =~= convertible_extensions());
        if list_contains(&v, ext) {
            Handling::Convert
        } else {
            Handling::Skip
        }
    }
}

/// Whether the bytes of a file with this lowercase extension decide its
/// handling.
pub fn needs_animation_check(ext: &str) -> (b: bool)
    ensures
        b == checks_animation(ext@),
{
    str_eq(ext, "png") || str_eq(ext, "gif")
}

/// The lowercase extension of a path, when it has one
/// (`p.extension().and_then(|s| s.to_str()).map(|s| s.to_lowercase())`).
pub open spec fn lower_ext(p: PathView) -> Option<Seq<char>> {
    match extension(p) {
        Some(e) => Some(lowercased(e)),
        None => None,
    }
}

/// The lowercase extension of a path, or the lowercase of the empty text
/// (`p.extension().and_then(|s| s.to_str()).unwrap_or("").to_lowercase()`).
pub open spec fn lower_ext_or_empty(p: PathView) -> Seq<char> {
    match extension(p) {
        Some(e) => lowercased(e),
        None => lowercased(Seq::empty()),
    }
}

/// The lowercase extension of a path, when it has one.
pub fn lower_extension(p: &MPath) -> (r: Option<String>)
    ensures
        r matches Some(s) ==> lower_ext(p@) == Some(s@),
        r is None ==> lower_ext(p@) is None,
{
    match p.extension() {
        Some(e) => Some(to_lowercase(e.as_str())),
        None => None,
    }
}

/// The lowercase extension of a path, or the lowercase of the empty text.
pub fn lower_extension_or_empty(p: &MPath) -> (r: String)
    ensures
        r@ == lower_ext_or_empty(p@),
{
    match p.extension() {
        Some(e) => to_lowercase(e.as_str()),
        None => {
            proof {
                reveal_strlit("");
                assert(""@ =~= Seq::<char>::empty());
            }
            to_lowercase("")
        },
    }
}

/// The path has a supported image, archive or video extension.
pub open spec fn is_media_path(p: PathView) -> bool {
    match lower_ext(p) {
        Some(e) => image_extensions().contains(e) || archive_extensions().contains(e)
            || video_extensions().contains(e),
        None => false,
    }
}

/// Whether the path has a supported image, archive or video extension.
pub fn media_path(p: &MPath) -> (b: bool)
    ensures
        b == is_media_path(p@),
{
    match lower_extension(p) {
        Some(e) => {
            let s = e.as_str();
            is_image_extension(s) || is_archive_extension(s) || is_video_extension(s)
        },
        None => false,
    }
}

} // verus!
