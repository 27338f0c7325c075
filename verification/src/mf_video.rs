//! The workspace's separate AV1 encoding tool: which videos it encodes,
//! where the results go and the FFmpeg command line of each.
use vstd::prelude::*;

use crate::kinds::list_contains;
use crate::mf_core::{video_extension_list, video_extensions};
use crate::paths::{extension, file_name, MPath, PathView};
use crate::text::{decimal, decimal_string, lowercased, owned, str_eq, to_lowercase};
use crate::video::builder::texts;
use crate::video::encode::{needs_encoding, video_destination, video_target};

verus! {

/// A path whose lowercase extension is a video extension of the separate
/// tools.
pub open spec fn is_video(p: PathView) -> bool {
    match extension(p) {
        Some(e) => video_extensions().contains(lowercased(e)),
        None => false,
    }
}

/// Whether a scanned file is a video the tool looks at.
pub fn video_file(p: &MPath) -> (b: bool)
    ensures
        b == is_video(p@),
{
    match p.extension() {
        Some(e) => list_contains(&video_extension_list(), to_lowercase(e.as_str()).as_str()),
        None => false,
    }
}

/// Where the encoded video goes: the file's position relative to the
/// source, under the destination, with the container extension.
pub fn encoded_path(file: &MPath, source: &MPath, destination: &MPath, ext: &str) -> (r: MPath)
    requires
        !ext@.contains('/'),
    ensures
        r@ == video_target(file@, source@, destination@, false, ext@),
{
    video_destination(file, source, destination, false, ext)
}

/// A probed video is queued when it needs encoding and its output does not
/// exist yet.
pub fn queues_video(codec: &str, positive_duration: bool, output_exists: bool) -> (b: bool)
    ensures
        b == (needs_encoding(codec@, positive_duration) && !output_exists),
{
    crate::video::encode::wants_encoding(codec, positive_duration) && !output_exists
}

/// The arguments of the FFmpeg run that encodes `src` into `dest`: CUDA
/// decoding, AV1 NVENC at the preset and quality level, high-quality tuning,
/// audio copied, subtitles turned into `mov_text` for MP4 and copied
/// otherwise.
pub open spec fn encode_args(src: Seq<char>, dest: Seq<char>, preset: Seq<char>, cq: u8, ext: Seq<char>) -> Seq<
    Seq<char>,
> {
    seq![
        "-y"@,
        "-hide_banner"@,
        "-loglevel"@,
        "info"@,
        "-hwaccel"@,
        "cuda"@,
        "-hwaccel_output_format"@,
        "cuda"@,
        "-i"@,
        src,
        "-c:v"@,
        "av1_nvenc"@,
        "-preset"@,
        preset,
        "-tune"@,
        "hq"@,
        "-cq"@,
        decimal(cq as nat),
        "-c:a"@,
        "copy"@,
    ] + (if ext == "mp4"@ {
        seq!["-c:s"@, "mov_text"@]
    } else {
        seq!["-c:s"@, "copy"@]
    }) + seq![dest]
}

/// The output file is the last argument, and the subtitle codec is chosen
/// just before it: `-c:s mov_text` for an MP4 container (MP4 cannot hold the
/// text subtitles of other containers as they are), `-c:s copy` for any
/// other container.
pub proof fn law_subtitles_fit_the_container(src: Seq<char>, dest: Seq<char>, preset: Seq<char>, cq: u8, ext: Seq<char>)
    ensures
        ({
            let a = encode_args(src, dest, preset, cq, ext);
            &&& a.len() >= 3
            &&& a.last() == dest
            &&& a[a.len() - 3] == "-c:s"@
            &&& ext == "mp4"@ ==> a[a.len() - 2] == "mov_text"@
            &&& ext != "mp4"@ ==> a[a.len() - 2] == "copy"@
        }),
{
}

fn push_text(v: &mut Vec<String>, s: String)
    ensures
        texts(final(v)@) == texts(old(v)@).push(s@),
{
    let ghost t = s@;
    v.push(s);
    assert(texts(v@) =~= texts(old(v)@).push(t));
}

/// The arguments of the FFmpeg run that encodes one video.
pub fn encode_arguments(src: &str, dest: &str, preset: &str, cq: u8, ext: &str) -> (v: Vec<String>)
    ensures
        texts(v@) == encode_args(src@, dest@, preset@, cq, ext@),
{
    let mut v: Vec<String> = Vec::new();
    push_text(&mut v, owned("-y"));
    push_text(&mut v, owned("-hide_banner"));
    push_text(&mut v, owned("-loglevel"));
    push_text(&mut v, owned("info"));
    push_text(&mut v, owned("-hwaccel"));
    push_text(&mut v, owned("cuda"));
    push_text(&mut v, owned("-hwaccel_output_format"));
    push_text(&mut v, owned("cuda"));
    push_text(&mut v, owned("-i"));
    push_text(&mut v, owned(src));
    push_text(&mut v, owned("-c:v"));
    push_text(&mut v, owned("av1_nvenc"));
    push_text(&mut v, owned("-preset"));
    push_text(&mut v, owned(preset));
    push_text(&mut v, owned("-tune"));
    push_text(&mut v, owned("hq"));
    push_text(&mut v, owned("-cq"));
    push_text(&mut v, decimal_string(cq as u64));
    push_text(&mut v, owned("-c:a"));
    push_text(&mut v, owned("copy"));
    push_text(&mut v, owned("-c:s"));
    if str_eq(ext, "mp4") {
        push_text(&mut v, owned("mov_text"));
    } else {
        push_text(&mut v, owned("copy"));
    }
    push_text(&mut v, owned(dest));
    assert(texts(v@) =~= encode_args(src@, dest@, preset@, cq, ext@));
    v
}

/// The name shown for a video in progress: its file name, or `unknown`.
pub fn file_label(src: &MPath) -> (s: String)
    ensures
        s@ == match file_name(src@) {
            Some(n) => n,
            None => "unknown"@,
        },
{
    match src.file_name() {
        Some(n) => n,
        None => owned("unknown"),
    }
}

} // verus!
