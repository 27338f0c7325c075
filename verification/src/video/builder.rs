//! A fluent builder for FFmpeg command lines.
//!
//! The builder produces the program name and the argument list; starting
//! the process is left to the caller.
use vstd::prelude::*;

use crate::paths::{render, MPath, PathView};
use crate::text::{decimal, decimal_string, owned};

verus! {

/// Supported hardware acceleration methods for FFmpeg.
pub enum HwAccel {
    /// NVIDIA CUDA hardware acceleration.
    Cuda,
}

/// Supported video codecs for encoding.
pub enum VideoCodec {
    /// AV1 encoding via NVIDIA NVENC.
    Av1Nvenc,
}

/// Builder for constructing FFmpeg commands with a fluent API.
pub struct FfmpegCommandBuilder {
    input: MPath,
    output: MPath,
    hwaccel: Option<HwAccel>,
    video_codec: Option<VideoCodec>,
    preset: Option<String>,
    cq: Option<u8>,
    extra_args: Vec<String>,
    start_time: Option<u64>,
    duration: Option<String>,
}

/// The abstract value of a builder: every setting made so far.
pub struct BuilderView {
    pub input: PathView,
    pub output: PathView,
    pub hwaccel: Option<HwAccel>,
    pub video_codec: Option<VideoCodec>,
    pub preset: Option<Seq<char>>,
    pub cq: Option<u8>,
    pub extra_args: Seq<Seq<char>>,
    pub start_time: Option<u64>,
    pub duration: Option<Seq<char>>,
}

/// The view of an optional string.
pub open spec fn opt_text(s: Option<String>) -> Option<Seq<char>> {
    match s {
        Some(t) => Some(t@),
        None => None,
    }
}

/// The views of a list of strings.
pub open spec fn texts(v: Seq<String>) -> Seq<Seq<char>> {
    v.map_values(|s: String| s@)
}

impl View for FfmpegCommandBuilder {
    type V = BuilderView;

    closed spec fn view(&self) -> BuilderView {
        BuilderView {
            input: self.input@,
            output: self.output@,
            hwaccel: self.hwaccel,
            video_codec: self.video_codec,
            preset: opt_text(self.preset),
            cq: self.cq,
            extra_args: texts(self.extra_args@),
            start_time: self.start_time,
            duration: opt_text(self.duration),
        }
    }
}

/// A command line: the program and its arguments, in order.
pub struct FfmpegCommand {
    program: String,
    args: Vec<String>,
}

/// The abstract value of a command line.
pub struct CommandView {
    pub program: Seq<char>,
    pub args: Seq<Seq<char>>,
}

impl View for FfmpegCommand {
    type V = CommandView;

    closed spec fn view(&self) -> CommandView {
        CommandView { program: self.program@, args: texts(self.args@) }
    }
}

/// The program every built command runs.
pub open spec fn ffmpeg_program() -> Seq<char> {
    "ffmpeg"@
}

/// The fixed flags every command starts with.
pub open spec fn head_args() -> Seq<Seq<char>> {
    seq!["-y"@, "-hide_banner"@, "-loglevel"@, "error"@, "-stats"@]
}

/// The seek flag, when a start time is set.
pub open spec fn seek_args(start: Option<u64>) -> Seq<Seq<char>> {
    match start {
        Some(s) => seq!["-ss"@, decimal(s as nat)],
        None => Seq::empty(),
    }
}

/// The duration flag, when a duration is set.
pub open spec fn duration_args(duration: Option<Seq<char>>) -> Seq<Seq<char>> {
    match duration {
        Some(d) => seq!["-t"@, d],
        None => Seq::empty(),
    }
}

/// The hardware decoding flags, when acceleration is set.
pub open spec fn hwaccel_args(hw: Option<HwAccel>) -> Seq<Seq<char>> {
    match hw {
        Some(HwAccel::Cuda) => seq!["-hwaccel"@, "cuda"@, "-hwaccel_output_format"@, "cuda"@],
        None => Seq::empty(),
    }
}

/// The input flag.
pub open spec fn input_args(input: PathView) -> Seq<Seq<char>> {
    seq!["-i"@, render(input)]
}

/// The codec flag, when a codec is set.
pub open spec fn codec_args(codec: Option<VideoCodec>) -> Seq<Seq<char>> {
    match codec {
        Some(VideoCodec::Av1Nvenc) => seq!["-c:v"@, "av1_nvenc"@],
        None => Seq::empty(),
    }
}

/// The preset flag, when a preset is set.
pub open spec fn preset_args(preset: Option<Seq<char>>) -> Seq<Seq<char>> {
    match preset {
        Some(p) => seq!["-preset"@, p],
        None => Seq::empty(),
    }
}

/// The quality flag, when a quality level is set.
pub open spec fn cq_args(cq: Option<u8>) -> Seq<Seq<char>> {
    match cq {
        Some(q) => seq!["-cq"@, decimal(q as nat)],
        None => Seq::empty(),
    }
}

/// The arguments of the command a builder describes: the fixed quiet-mode
/// flags, the seek and duration, hardware decoding, the input, the codec,
/// preset and quality, the extra arguments, and the output last.
pub open spec fn command_args(b: BuilderView) -> Seq<Seq<char>> {
    head_args() + seek_args(b.start_time) + duration_args(b.duration) + hwaccel_args(b.hwaccel)
        + input_args(b.input) + codec_args(b.video_codec) + preset_args(b.preset) + cq_args(b.cq)
        + b.extra_args + seq![render(b.output)]
}

impl FfmpegCommand {
    /// The program to run.
    pub fn get_program(&self) -> (p: &String)
        ensures
            p@ == self@.program,
    {
        &self.program
    }

    /// The arguments, in order.
    pub fn get_args(&self) -> (a: &Vec<String>)
        ensures
            texts(a@) == self@.args,
    {
        &self.args
    }
}

/// Appends a literal argument.
fn push_arg(args: &mut Vec<String>, a: &str)
    ensures
        texts(final(args)@) == texts(old(args)@).push(a@),
{
    args.push(owned(a));
    assert(texts(args@) =~= texts(old(args)@).push(a@));
}

/// Appends an owned argument.
fn push_owned(args: &mut Vec<String>, a: String)
    ensures
        texts(final(args)@) == texts(old(args)@).push(a@),
{
    let ghost v = a@;
    args.push(a);
    assert(texts(args@) =~= texts(old(args)@).push(v));
}

impl FfmpegCommandBuilder {
    /// Creates a new builder with the specified input and output paths.
    pub fn new(input: &MPath, output: &MPath) -> (b: Self)
        ensures
            b@ == (BuilderView {
                input: input@,
                output: output@,
                hwaccel: None,
                video_codec: None,
                preset: None,
                cq: None,
                extra_args: Seq::empty(),
                start_time: None,
                duration: None,
            }),
    {
        let b = FfmpegCommandBuilder {
            input: input.duplicate(),
            output: output.duplicate(),
            hwaccel: None,
            video_codec: None,
            preset: None,
            cq: None,
            extra_args: Vec::new(),
            start_time: None,
            duration: None,
        };
        assert(texts(b.extra_args@) =~= Seq::<Seq<char>>::empty());
        b
    }

    /// Sets the hardware acceleration method.
    pub fn hwaccel(self, hwaccel: HwAccel) -> (b: Self)
        ensures
            b@ == (BuilderView { hwaccel: Some(hwaccel), ..self@ }),
    {
        let mut s = self;
        s.hwaccel = Some(hwaccel);
        s
    }

    /// Sets the video codec for encoding.
    pub fn video_codec(self, codec: VideoCodec) -> (b: Self)
        ensures
            b@ == (BuilderView { video_codec: Some(codec), ..self@ }),
    {
        let mut s = self;
        s.video_codec = Some(codec);
        s
    }

    /// Sets the encoding preset.
    pub fn preset(self, preset: &str) -> (b: Self)
        ensures
            b@ == (BuilderView { preset: Some(preset@), ..self@ }),
    {
        let mut s = self;
        s.preset = Some(owned(preset));
        s
    }

    /// Sets the constant quality (CQ) level.
    pub fn cq(self, cq: u8) -> (b: Self)
        ensures
            b@ == (BuilderView { cq: Some(cq), ..self@ }),
    {
        let mut s = self;
        s.cq = Some(cq);
        s
    }

    /// Sets the start time for processing, in whole seconds.
    pub fn start_time(self, seconds: u64) -> (b: Self)
        ensures
            b@ == (BuilderView { start_time: Some(seconds), ..self@ }),
    {
        let mut s = self;
        s.start_time = Some(seconds);
        s
    }

    /// Sets the duration for processing, given as the decimal text of the
    /// number of seconds.
    pub fn duration(self, seconds: &str) -> (b: Self)
        ensures
            b@ == (BuilderView { duration: Some(seconds@), ..self@ }),
    {
        let mut s = self;
        s.duration = Some(owned(seconds));
        s
    }

    /// Adds an extra argument to the FFmpeg command.
    pub fn arg(self, arg: &str) -> (b: Self)
        ensures
            b@ == (BuilderView { extra_args: self@.extra_args.push(arg@), ..self@ }),
    {
        let mut s = self;
        push_arg(&mut s.extra_args, arg);
        s
    }

    /// Adds several extra arguments to the FFmpeg command, in order.
    pub fn args(self, args: &[&str]) -> (b: Self)
        ensures
            b@ == (BuilderView {
                extra_args: self@.extra_args + args@.map_values(|a: &str| a@),
                ..self@
            }),
    {
        let mut s = self;
        let ghost start = texts(s.extra_args@);
        let mut i: usize = 0;
        while i < args.len()
            invariant
                i <= args@.len(),
                texts(s.extra_args@) == start + args@.take(i as int).map_values(|a: &str| a@),
                s.input == self.input,
                s.output == self.output,
                s.hwaccel == self.hwaccel,
                s.video_codec == self.video_codec,
                s.preset == self.preset,
                s.cq == self.cq,
                s.start_time == self.start_time,
                s.duration == self.duration,
                start == texts(self.extra_args@),
            decreases args@.len() - i,
        {
            push_arg(&mut s.extra_args, args[i]);
            i = i + 1;
            assert(args@.take(i as int).map_values(|a: &str| a@) =~= args@.take(i - 1).map_values(
                |a: &str| a@,
            ).push(args@[i - 1]@));
        }
        assert(args@.take(i as int) =~= args@);
        s
    }

    /// Builds the configured FFmpeg command line.
    pub fn build(self) -> (cmd: FfmpegCommand)
        ensures
            cmd@.program == ffmpeg_program(),
            cmd@.args == command_args(self@),
    {
        let mut a: Vec<String> = Vec::new();
        push_head(&mut a);
        push_seek(&mut a, self.start_time);
        push_duration(&mut a, &self.duration);
        push_hwaccel(&mut a, &self.hwaccel);
        push_arg(&mut a, "-i");
        push_owned(&mut a, self.input.render());
        push_codec(&mut a, &self.video_codec);
        push_preset(&mut a, &self.preset);
        push_cq(&mut a, self.cq);
        push_all(&mut a, &self.extra_args);
        push_owned(&mut a, self.output.render());
        let program = owned("ffmpeg");
        proof {
            reveal_strlit("-i");
        }
        assert(texts(a@) =~= command_args(self@));
        FfmpegCommand { program, args: a }
    }
}

fn push_head(a: &mut Vec<String>)
    ensures
        texts(final(a)@) == texts(old(a)@) + head_args(),
{
    push_arg(a, "-y");
    push_arg(a, "-hide_banner");
    push_arg(a, "-loglevel");
    push_arg(a, "error");
    push_arg(a, "-stats");
    assert(texts(a@) =~= texts(old(a)@) + head_args());
}

fn push_seek(a: &mut Vec<String>, start: Option<u64>)
    ensures
        texts(final(a)@) == texts(old(a)@) + seek_args(start),
{
    if let Some(s) = start {
        push_arg(a, "-ss");
        push_owned(a, decimal_string(s));
    }
    assert(texts(a@) =~= texts(old(a)@) + seek_args(start));
}

fn push_duration(a: &mut Vec<String>, duration: &Option<String>)
    ensures
        texts(final(a)@) == texts(old(a)@) + duration_args(opt_text(*duration)),
{
    match duration {
        Some(d) => {
            push_arg(a, "-t");
            push_arg(a, d.as_str());
        },
        None => {},
    }
    assert(texts(a@) =~= texts(old(a)@) + duration_args(opt_text(*duration)));
}

fn push_hwaccel(a: &mut Vec<String>, hw: &Option<HwAccel>)
    ensures
        texts(final(a)@) == texts(old(a)@) + hwaccel_args(*hw),
{
    match hw {
        Some(HwAccel::Cuda) => {
            push_arg(a, "-hwaccel");
            push_arg(a, "cuda");
            push_arg(a, "-hwaccel_output_format");
            push_arg(a, "cuda");
        },
        None => {},
    }
    assert(texts(a@) =~= texts(old(a)@) + hwaccel_args(*hw));
}

fn push_codec(a: &mut Vec<String>, codec: &Option<VideoCodec>)
    ensures
        texts(final(a)@) == texts(old(a)@) + codec_args(*codec),
{
    match codec {
        Some(VideoCodec::Av1Nvenc) => {
            push_arg(a, "-c:v");
            push_arg(a, "av1_nvenc");
        },
        None => {},
    }
    assert(texts(a@) =~= texts(old(a)@) + codec_args(*codec));
}

fn push_preset(a: &mut Vec<String>, preset: &Option<String>)
    ensures
        texts(final(a)@) == texts(old(a)@) + preset_args(opt_text(*preset)),
{
    match preset {
        Some(p) => {
            push_arg(a, "-preset");
            push_arg(a, p.as_str());
        },
        None => {},
    }
    assert(texts(a@) =~= texts(old(a)@) + preset_args(opt_text(*preset)));
}

fn push_cq(a: &mut Vec<String>, cq: Option<u8>)
    ensures
        texts(final(a)@) == texts(old(a)@) + cq_args(cq),
{
    if let Some(q) = cq {
        push_arg(a, "-cq");
        push_owned(a, decimal_string(q as u64));
    }
    assert(texts(a@) =~= texts(old(a)@) + cq_args(cq));
}

/// Appends copies of several arguments, in order.
pub(crate) fn push_all(a: &mut Vec<String>, items: &Vec<String>)
    ensures
        texts(final(a)@) == texts(old(a)@) + texts(items@),
{
    let ghost start = texts(a@);
    let mut i: usize = 0;
    while i < items.len()
        invariant
            i <= items@.len(),
            start == texts(old(a)@),
            texts(a@) == start + texts(items@).take(i as int),
        decreases items@.len() - i,
    {
        push_arg(a, items[i].as_str());
        i = i + 1;
        assert(texts(items@).take(i as int) =~= texts(items@).take(i - 1).push(items@[i - 1]@));
    }
    assert(texts(items@).take(i as int) =~= texts(items@));
}

} // verus!
