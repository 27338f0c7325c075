//! Decisions of a video encoding run: which videos are encoded, where the
//! results go, the FFmpeg command of each, and how FFmpeg's progress lines
//! are read.
use vstd::prelude::*;

use crate::naming::{truncated_start, Naming};
use crate::paths::{extension, file_name, join, parse_text, strip_prefix, with_extension, MPath, PathView};
use crate::text::{ascii_text, owned, parse_unsigned, parsed_unsigned, str_eq};
use crate::video::builder::{
    command_args, ffmpeg_program, BuilderView, FfmpegCommand, FfmpegCommandBuilder, HwAccel, VideoCodec,
};

verus! {

/// What the `regex` crate's `Regex::captures` finds for a pattern in a line:
/// the texts of the first three capture groups of the leftmost match, or
/// `None` when the pattern does not compile, the line does not match, or a
/// group takes no part in the match.
pub uninterp spec fn pattern_captures(pattern: Seq<char>, line: Seq<char>) -> Option<(Seq<char>, Seq<char>, Seq<char>)>;

/// The pattern of a progress line: `time=` followed by hours, minutes and
/// decimal seconds, each a group of digits.
pub open spec fn progress_pattern_text() -> Seq<char> {
    "time=(\\d+):(\\d+):(\\d+\\.\\d+)"@
}

/// The pattern FFmpeg's progress lines are read with.
pub fn progress_pattern() -> (p: &'static str)
    ensures
        p@ == progress_pattern_text(),
{
    "time=(\\d+):(\\d+):(\\d+\\.\\d+)"
}

/// An ASCII decimal digit.
pub open spec fn ascii_digit(c: char) -> bool {
    '0' <= c <= '9'
}

/// The length of the run of ASCII digits in `s` that starts at `i`.
pub open spec fn digit_run(s: Seq<char>, i: int) -> nat
    decreases s.len() - i,
{
    if 0 <= i < s.len() && ascii_digit(s[i]) {
        1 + digit_run(s, i + 1)
    } else {
        0
    }
}

/// The fields of a progress match that starts at `i` in an ASCII text:
/// `time=`, a digit run, `:`, a digit run, `:`, and a digit run, `.` and a
/// digit run; each run is as long as it goes, as the greedy groups take it.
pub open spec fn progress_at(s: Seq<char>, i: int) -> Option<(Seq<char>, Seq<char>, Seq<char>)> {
    let a = i + 5;
    let h = digit_run(s, a);
    let b = a + h + 1;
    let m = digit_run(s, b);
    let c = b + m + 1;
    let x = digit_run(s, c);
    let d = c + x + 1;
    let y = digit_run(s, d);
    if 0 <= i && a <= s.len() && s.subrange(i, a) == "time="@ && h > 0 && a + h < s.len() && s[a + h]
        == ':' && m > 0 && b + m < s.len() && s[b + m] == ':' && x > 0 && c + x < s.len() && s[c + x]
        == '.' && y > 0 {
        Some((s.subrange(a, a + h), s.subrange(b, b + m), s.subrange(c, d + y)))
    } else {
        None
    }
}

/// The fields of the leftmost progress match that starts at or after `i`.
pub open spec fn leftmost_progress(s: Seq<char>, i: int) -> Option<(Seq<char>, Seq<char>, Seq<char>)>
    decreases s.len() - i,
{
    if 0 <= i < s.len() {
        match progress_at(s, i) {
            Some(f) => Some(f),
            None => leftmost_progress(s, i + 1),
        }
    } else {
        None
    }
}

/// The view of three captured texts.
pub open spec fn fields_view(r: Option<(String, String, String)>) -> Option<(Seq<char>, Seq<char>, Seq<char>)> {
    match r {
        Some((a, b, c)) => Some((a@, b@, c@)),
        None => None,
    }
}

/// Compiles `pattern` with `regex::Regex::new` and calls `captures` on a
/// line, taking the texts of the first three groups. The contract names the
/// result over the pattern and the line, and states it for the progress
/// pattern on an ASCII line: there `\d` matches exactly `0` to `9`, the
/// leftmost match wins and each `\d+` takes the longest run, so the groups
/// are the digit runs of the leftmost `time=H:M:S.F`.
#[verifier::external_body]
fn first_captures(pattern: &str, line: &str) -> (r: Option<(String, String, String)>)
    ensures
        fields_view(r) == pattern_captures(pattern@, line@),
        pattern@ == progress_pattern_text() && ascii_text(line@) ==> fields_view(r) == leftmost_progress(
            line@,
            0,
        ),
{
    let re = regex::Regex::new(pattern).ok()?;
    let caps = re.captures(line)?;
    Some((caps.get(1)?.as_str().to_string(), caps.get(2)?.as_str().to_string(), caps.get(3)?.as_str().to_string()))
}

/// The hours, minutes and seconds texts of a progress line.
pub open spec fn progress_time_fields(line: Seq<char>) -> Option<(Seq<char>, Seq<char>, Seq<char>)> {
    pattern_captures(progress_pattern_text(), line)
}

/// A position in the video that FFmpeg reports.
pub struct ProgressTime {
    pub hours: u64,
    pub minutes: u64,
    /// The seconds, as the decimal text FFmpeg wrote.
    pub seconds: String,
}

/// A parsed number, or zero when the text does not parse
/// (`parse().unwrap_or(0)`).
pub open spec fn number_or_zero(s: Seq<char>) -> nat {
    match parsed_unsigned(s, u64::MAX as nat) {
        Some(v) => v,
        None => 0,
    }
}

/// The position given by captured hours, minutes and seconds texts.
pub fn progress_from_fields(hours: &str, minutes: &str, seconds: &str) -> (p: ProgressTime)
    ensures
        p.hours == number_or_zero(hours@),
        p.minutes == number_or_zero(minutes@),
        p.seconds@ == seconds@,
{
    let h = match parse_unsigned(hours, u64::MAX) {
        Some(v) => v,
        None => 0,
    };
    let m = match parse_unsigned(minutes, u64::MAX) {
        Some(v) => v,
        None => 0,
    };
    ProgressTime { hours: h, minutes: m, seconds: owned(seconds) }
}

/// Reads the position from a line of FFmpeg's output, when the line reports
/// one; on an ASCII line, the leftmost `time=H:M:S.F` gives it.
pub fn parse_progress(line: &str) -> (r: Option<ProgressTime>)
    ensures
        match progress_time_fields(line@) {
            None => r is None,
            Some((h, m, s)) => r matches Some(p) && p.hours == number_or_zero(h) && p.minutes
                == number_or_zero(m) && p.seconds@ == s,
        },
        ascii_text(line@) ==> progress_time_fields(line@) == leftmost_progress(line@, 0),
{
    match first_captures(progress_pattern(), line) {
        Some((h, m, s)) => Some(progress_from_fields(h.as_str(), m.as_str(), s.as_str())),
        None => None,
    }
}

/// The whole seconds of the hours and minutes of a position.
pub fn whole_seconds(hours: u64, minutes: u64) -> (s: u64)
    requires
        hours * 3600 + minutes * 60 <= u64::MAX,
    ensures
        s == hours * 3600 + minutes * 60,
{
    hours * 3600 + minutes * 60
}

/// A video is encoded unless it already is AV1 or has no positive duration.
pub open spec fn needs_encoding(codec: Seq<char>, positive_duration: bool) -> bool {
    codec != "av1"@ && positive_duration
}

/// Whether a probed video is encoded.
pub fn wants_encoding(codec: &str, positive_duration: bool) -> (b: bool)
    ensures
        b == needs_encoding(codec@, positive_duration),
{
    !str_eq(codec, "av1") && positive_duration
}

/// Where the encoded video goes. A single source file goes to the
/// destination itself when the destination has an extension, else into the
/// destination folder under its own name; a file found under a source folder
/// keeps its position relative to the source. The extension becomes `ext`.
pub open spec fn video_target(
    file: PathView,
    source: PathView,
    destination: PathView,
    source_is_file: bool,
    ext: Seq<char>,
) -> PathView {
    if source_is_file {
        if extension(destination) is Some {
            destination
        } else {
            with_extension(
                join(
                    destination,
                    parse_text(
                        match file_name(file) {
                            Some(n) => n,
                            None => Seq::empty(),
                        },
                    ),
                ),
                ext,
            )
        }
    } else {
        with_extension(
            join(
                destination,
                match strip_prefix(file, source) {
                    Some(rel) => rel,
                    None => file,
                },
            ),
            ext,
        )
    }
}

/// Computes where an encoded video goes.
pub fn video_destination(
    file: &MPath,
    source: &MPath,
    destination: &MPath,
    source_is_file: bool,
    ext: &str,
) -> (r: MPath)
    requires
        !ext@.contains('/'),
    ensures
        r@ == video_target(file@, source@, destination@, source_is_file, ext@),
{
    if source_is_file {
        if destination.extension().is_some() {
            destination.duplicate()
        } else {
            let name = match file.file_name() {
                Some(n) => n,
                None => {
                    proof {
                        reveal_strlit("");
                        assert(""@ =~= Seq::<char>::empty());
                    }
                    owned("")
                },
            };
            destination.join(&MPath::parse(name.as_str())).with_extension(ext)
        }
    } else {
        let rel = match file.strip_prefix(source) {
            Some(r) => r,
            None => file.duplicate(),
        };
        destination.join(&rel).with_extension(ext)
    }
}

/// The settings of an encoding run that shape each command.
pub struct EncodeSettings {
    /// NVENC preset (`p1` to `p7`).
    pub preset: String,
    /// Constant quality level.
    pub cq: u8,
    /// Output container (`mkv` or `mp4`).
    pub ext: String,
}

/// The builder settings of the command that encodes `src` into `dest`:
/// CUDA decoding, AV1 NVENC at the preset and quality level, high-quality
/// tuning, audio copied, and subtitles turned into `mov_text` for MP4 and
/// copied otherwise.
pub open spec fn encode_settings(src: PathView, dest: PathView, s: EncodeSettings) -> BuilderView {
    BuilderView {
        input: src,
        output: dest,
        hwaccel: Some(HwAccel::Cuda),
        video_codec: Some(VideoCodec::Av1Nvenc),
        preset: Some(s.preset@),
        cq: Some(s.cq),
        extra_args: seq!["-tune"@, "hq"@, "-c:a"@, "copy"@] + if s.ext@ == "mp4"@ {
            seq!["-c:s"@, "mov_text"@]
        } else {
            seq!["-c:s"@, "copy"@]
        },
        start_time: None,
        duration: None,
    }
}

/// Builds the FFmpeg command that encodes one video.
pub fn encode_command(src: &MPath, dest: &MPath, settings: &EncodeSettings) -> (cmd: FfmpegCommand)
    ensures
        cmd@.program == ffmpeg_program(),
        cmd@.args == command_args(encode_settings(src@, dest@, *settings)),
{
    let builder = FfmpegCommandBuilder::new(src, dest).hwaccel(HwAccel::Cuda).video_codec(
        VideoCodec::Av1Nvenc,
    ).preset(settings.preset.as_str()).cq(settings.cq).args(&["-tune", "hq", "-c:a", "copy"]);
    let builder = if str_eq(settings.ext.as_str(), "mp4") {
        builder.args(&["-c:s", "mov_text"])
    } else {
        builder.args(&["-c:s", "copy"])
    };
    proof {
        reveal_strlit("-tune");
        reveal_strlit("hq");
        reveal_strlit("-c:a");
        reveal_strlit("copy");
        reveal_strlit("-c:s");
        reveal_strlit("mov_text");
    }
    let ghost b = builder@;
    assert(b.extra_args =~= encode_settings(src@, dest@, *settings).extra_args);
    builder.build()
}

/// The name shown for a video in progress: its file name (`unknown` when it
/// has none), shortened from the start to the last 50 characters.
pub open spec fn video_label(src: PathView) -> Seq<char> {
    truncated_start(
        match file_name(src) {
            Some(n) => n,
            None => "unknown"@,
        },
        50,
    )
}

/// The name shown for a video in progress.
pub fn video_display_name(src: &MPath) -> (s: String)
    ensures
        s@ == video_label(src@),
{
    let name = match src.file_name() {
        Some(n) => n,
        None => owned("unknown"),
    };
    Naming::truncate_from_start(name.as_str(), 50)
}

} // verus!
