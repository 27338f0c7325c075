//! The shared core of the workspace's separate image, archive and video
//! tools: their extension lists, their scanner, their thread count rule and
//! their naming helpers.
use vstd::prelude::*;
use vstd::string::*;
use vstd::utf8::*;

use crate::cpu::{available_cpus, clamp, three_quarters_up};
use crate::kinds::{names_view, strings_view};
use crate::paths::{extension, MPath, PathView};
use crate::scanner::{paths_view, WalkEntry};
use crate::text::{has_infix, has_prefix, lowercased, owned, str_contains, str_eq, str_starts_with, to_lowercase};

verus! {

/// The image extensions of the separate tools.
pub open spec fn image_extensions() -> Seq<Seq<char>> {
    seq!["jpg"@, "jpeg"@, "png"@, "webp"@, "tiff"@, "bmp"@]
}

/// The video extensions of the separate tools.
pub open spec fn video_extensions() -> Seq<Seq<char>> {
    seq!["mp4"@, "mkv"@, "mov"@, "avi"@, "ts"@, "m4v"@]
}

/// The archive extensions of the separate tools.
pub open spec fn archive_extensions() -> Seq<Seq<char>> {
    seq!["zip"@, "cbz"@]
}

/// A path whose lowercase extension is an image, archive or video extension
/// of the separate tools.
pub open spec fn is_media(p: PathView) -> bool {
    match extension(p) {
        Some(e) => image_extensions().contains(lowercased(e)) || archive_extensions().contains(
            lowercased(e),
        ) || video_extensions().contains(lowercased(e)),
        None => false,
    }
}

/// The image extensions of the separate tools.
pub fn image_extension_list() -> (v: Vec<&'static str>)
    ensures
        names_view(v@) == image_extensions(),
{
    let v = vec!["jpg", "jpeg", "png", "webp", "tiff", "bmp"];
    assert(names_view(v@) =~= image_extensions());
    v
}

/// The video extensions of the separate tools.
pub fn video_extension_list() -> (v: Vec<&'static str>)
    ensures
        names_view(v@) == video_extensions(),
{
    let v = vec!["mp4", "mkv", "mov", "avi", "ts", "m4v"];
    assert(names_view(v@) =~= video_extensions());
    v
}

/// The archive extensions of the separate tools.
pub fn archive_extension_list() -> (v: Vec<&'static str>)
    ensures
        names_view(v@) == archive_extensions(),
{
    let v = vec!["zip", "cbz"];
    assert(names_view(v@) =~= archive_extensions());
    v
}

/// Whether a path is a media file for the separate tools.
pub fn media_file(p: &MPath) -> (b: bool)
    ensures
        b == is_media(p@),
{
    match p.extension() {
        Some(e) => {
            let l = to_lowercase(e.as_str());
            let s = l.as_str();
            crate::kinds::list_contains(&image_extension_list(), s) || crate::kinds::list_contains(
                &archive_extension_list(),
                s,
            ) || crate::kinds::list_contains(&video_extension_list(), s)
        },
        None => false,
    }
}

/// The regular files within `max_depth` of a walk that are media files, in
/// walk order.
pub open spec fn media_files(es: Seq<WalkEntry>, max_depth: nat) -> Seq<PathView>
    decreases es.len(),
{
    if es.len() == 0 {
        Seq::empty()
    } else {
        let rest = media_files(es.drop_last(), max_depth);
        let e = es.last();
        if e.depth <= max_depth && e.is_file && is_media(e.path@) {
            rest.push(e.path@)
        } else {
            rest
        }
    }
}

/// Scans directories for the media files of the separate tools.
pub struct Scanner {
    /// Maximum recursion depth for directory traversal.
    pub max_depth: usize,
}

impl Scanner {
    /// Creates a new scanner with the specified maximum depth.
    pub fn new(max_depth: usize) -> (s: Scanner)
        ensures
            s.max_depth == max_depth,
    {
        Scanner { max_depth }
    }

    /// The media files of a walk, in walk order.
    pub fn scan(&self, entries: &Vec<WalkEntry>) -> (r: Vec<MPath>)
        ensures
            paths_view(r@) == media_files(entries@, self.max_depth as nat),
    {
        let mut r: Vec<MPath> = Vec::new();
        let n = entries.len();
        let mut i: usize = 0;
        while i < n
            invariant
                n == entries@.len(),
                i <= n,
                paths_view(r@) == media_files(entries@.take(i as int), self.max_depth as nat),
            decreases n - i,
        {
            let e = &entries[i];
            assert(entries@.take(i + 1).drop_last() =~= entries@.take(i as int));
            if e.depth <= self.max_depth && e.is_file && media_file(&e.path) {
                let ghost before = r@;
                r.push(e.path.duplicate());
                assert(paths_view(r@) =~= paths_view(before).push(e.path@));
            }
            i = i + 1;
        }
        assert(entries@.take(n as int) =~= entries@);
        r
    }
}

/// The thread count of the separate tools for a machine with `total` CPUs:
/// the request, or half the CPUs, clamped between 1 and 75% of the CPUs
/// rounded up.
pub open spec fn core_thread_count(total: nat, requested: Option<usize>) -> nat {
    let wanted = match requested {
        Some(r) => r as nat,
        None => total / 2,
    };
    clamp(wanted, 1, three_quarters_up(total))
}

/// CPU thread count management of the separate tools.
pub struct CpuControl;

impl CpuControl {
    /// The thread count for this machine.
    pub fn get_thread_count(requested: Option<usize>) -> (r: usize)
        ensures
            exists|total: usize| total >= 1 && r == core_thread_count(total as nat, requested),
    {
        let total = available_cpus();
        Self::thread_count_for(total, requested)
    }

    /// The thread count for a machine with `total` CPUs.
    pub fn thread_count_for(total: usize, requested: Option<usize>) -> (r: usize)
        requires
            total >= 1,
        ensures
            r == core_thread_count(total as nat, requested),
    {
        let max_safe = total - total / 4;
        let wanted = match requested {
            Some(req) => req,
            None => total / 2,
        };
        if wanted < 1 {
            1
        } else if wanted > max_safe {
            max_safe
        } else {
            wanted
        }
    }
}

/// The text of the first `n` bytes of a UTF-8 encoded text.
pub open spec fn byte_prefix(bytes: Seq<u8>, n: int) -> Seq<char> {
    decode_utf8(bytes.subrange(0, n))
}

/// The old cover heuristic on an already lowercased name.
pub open spec fn core_cover_name(lower: Seq<char>) -> bool {
    has_infix(lower, "000_cover"@) || has_prefix(lower, "000"@) || has_infix(lower, "cover"@)
}

/// Filename helpers of the separate tools.
pub struct Naming;

impl Naming {
    /// Cuts a name longer than `max_len` bytes to its first `max_len - 3`
    /// bytes followed by `...`; a shorter name is kept whole. The cut must
    /// fall on a character boundary.
    pub fn truncate_filename(name: &str, max_len: usize) -> (r: String)
        requires
            name.spec_bytes().len() <= usize::MAX,
            name.spec_bytes().len() > max_len ==> max_len >= 3 && is_char_boundary(
                name.spec_bytes(),
                max_len - 3,
            ),
        ensures
            name.spec_bytes().len() <= max_len ==> r@ == name@,
            name.spec_bytes().len() > max_len ==> r@ == byte_prefix(name.spec_bytes(), max_len - 3)
                + "..."@,
    {
        if name.len() <= max_len {
            owned(name)
        } else {
            let (head, _tail) = name.split_at(max_len - 3);
            proof {
                encode_utf8_decode_utf8(head@);
                assert(head.spec_bytes() == encode_utf8(head@));
                assert(head.spec_bytes() == name.spec_bytes().subrange(0, max_len - 3));
                assert(byte_prefix(name.spec_bytes(), max_len - 3) == head@);
            }
            let mut r = owned(head);
            r.append("...");
            r
        }
    }

    /// Whether a name looks like a cover: its lowercase form contains
    /// `000_cover` or `cover`, or starts with `000`.
    pub fn is_cover_image(filename: &str) -> (b: bool)
        ensures
            b == core_cover_name(lowercased(filename@)),
    {
        let lower = to_lowercase(filename);
        Self::is_cover_name(lower.as_str())
    }

    /// The cover heuristic of the separate tools on a name that is already
    /// lowercase.
    pub fn is_cover_name(lower: &str) -> (b: bool)
        ensures
            b == core_cover_name(lower@),
    {
        str_contains(lower, "000_cover") || str_starts_with(lower, "000") || str_contains(
            lower,
            "cover",
        )
    }
}

} // verus!
