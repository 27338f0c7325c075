//! The FFmpeg command line of a VMAF comparison between an encoded video
//! and its original.
use vstd::prelude::*;

use crate::cpu::available_cpus;
use crate::text::{
    decimal, decimal_string, has_infix, join_strings, joined_with, owned, parse_unsigned, parsed_unsigned, str_contains, str_eq,
};
use crate::video::builder::{push_all, texts};

verus! {

/// What a VMAF comparison is asked to do.
pub struct VmafArgs {
    /// The original video, as given.
    pub original: String,
    /// The encoded video, as given.
    pub encoded: String,
    /// Seconds skipped at the start of both videos.
    pub start: u64,
    /// Seconds compared when the whole video is not asked for.
    pub duration: u64,
    /// Compare the whole video.
    pub full: bool,
    /// Worker threads for libvmaf; 0 picks a count from the CPUs.
    pub threads: usize,
    /// Compare every n-th frame when above 1.
    pub subsample: u32,
    /// Height the videos are scaled to before comparison; `0` keeps them.
    pub scale: String,
    /// Where libvmaf writes its JSON log, if anywhere.
    pub output: Option<String>,
}

/// The libvmaf thread count: the request, or all CPUs but two (at least one).
pub open spec fn vmaf_threads(requested: usize, cpus: usize) -> nat {
    if requested == 0 {
        if cpus > 2 {
            (cpus - 2) as nat
        } else {
            1
        }
    } else {
        requested as nat
    }
}

/// The scale height asked for, or 0 when it does not parse.
pub open spec fn requested_scale(scale: Seq<char>) -> nat {
    match parsed_unsigned(scale, u32::MAX as nat) {
        Some(v) => v,
        None => 0,
    }
}

/// The 4K model is used for a 4K source unless a scale below 2160 lines is
/// asked for; the source is then compared unscaled.
pub open spec fn uses_4k_model(width: u32, height: u32, scale: Seq<char>) -> bool {
    (height >= 2160 || width >= 3840) && (requested_scale(scale) == 0 || requested_scale(scale) >= 2160)
}

/// The name of the VMAF model.
pub open spec fn model_name(width: u32, height: u32, scale: Seq<char>) -> Seq<char> {
    if uses_4k_model(width, height, scale) {
        "vmaf_4k_v0.6.1"@
    } else {
        "vmaf_v0.6.1"@
    }
}

/// The libvmaf options: thread count, subsampling when above 1, the model,
/// and the JSON log when one is asked for.
pub open spec fn vmaf_options(a: VmafArgs, cpus: usize, width: u32, height: u32) -> Seq<Seq<char>> {
    seq!["n_threads="@ + decimal(vmaf_threads(a.threads, cpus))] + (if a.subsample > 1 {
        seq!["n_subsample="@ + decimal(a.subsample as nat)]
    } else {
        Seq::empty()
    }) + seq!["model=version="@ + model_name(width, height, a.scale@)] + match a.output {
        Some(p) => seq!["log_fmt=json"@, "log_path='"@ + p@ + "'"@],
        None => Seq::empty(),
    }
}

/// The scaling step put in front of both inputs, if any.
pub open spec fn scale_step(a: VmafArgs, width: u32, height: u32) -> Seq<char> {
    if !uses_4k_model(width, height, a.scale@) && a.scale@ != "0"@ {
        "scale_cuda=-2:"@ + a.scale@ + ","@
    } else {
        Seq::empty()
    }
}

/// The filter graph: both inputs downloaded from the GPU as NV12 with
/// timestamps reset, then compared by libvmaf.
pub open spec fn vmaf_filter(a: VmafArgs, cpus: usize, width: u32, height: u32) -> Seq<char> {
    "[0:v]"@ + scale_step(a, width, height) + "hwdownload,format=nv12,setpts=PTS-STARTPTS[main];         [1:v]"@
        + scale_step(a, width, height) + "hwdownload,format=nv12,setpts=PTS-STARTPTS[ref];         [main][ref]libvmaf="@
        + joined_with(vmaf_options(a, cpus, width, height), ":"@)
}

/// One input: the seek when the start is positive, the duration, CUDA
/// decoding and the file.
pub open spec fn vmaf_input(start: u64, duration: Seq<char>, file: Seq<char>) -> Seq<Seq<char>> {
    (if start > 0 {
        seq!["-ss"@, decimal(start as nat)]
    } else {
        Seq::empty()
    }) + seq!["-t"@, duration, "-hwaccel"@, "cuda"@, "-hwaccel_output_format"@, "cuda"@, "-i"@, file]
}

/// The arguments of the FFmpeg run that compares the encoded video (first
/// input) with the original (second input) over `duration` seconds, given
/// as decimal text, and discards the output.
pub open spec fn vmaf_args(a: VmafArgs, cpus: usize, width: u32, height: u32, duration: Seq<char>) -> Seq<Seq<char>> {
    seq!["-hide_banner"@, "-stats"@, "-loglevel"@, "info"@] + vmaf_input(a.start, duration, a.encoded@)
        + vmaf_input(a.start, duration, a.original@) + seq![
        "-lavfi"@,
        vmaf_filter(a, cpus, width, height),
        "-f"@,
        "null"@,
        "-"@,
    ]
}

fn push_text(v: &mut Vec<String>, s: String)
    ensures
        texts(final(v)@) == texts(old(v)@).push(s@),
{
    let ghost t = s@;
    v.push(s);
    assert(texts(v@) =~= texts(old(v)@).push(t));
}

fn concat(a: &str, b: &str) -> (r: String)
    ensures
        r@ == a@ + b@,
{
    let mut r = owned(a);
    r.append(b);
    r
}

/// The libvmaf options for a run.
fn options_for(a: &VmafArgs, cpus: usize, width: u32, height: u32) -> (v: Vec<String>)
    ensures
        texts(v@) == vmaf_options(*a, cpus, width, height),
{
    let threads: usize = if a.threads == 0 {
        if cpus > 2 {
            cpus - 2
        } else {
            1
        }
    } else {
        a.threads
    };
    let mut v: Vec<String> = Vec::new();
    push_text(&mut v, concat("n_threads=", decimal_string(threads as u64).as_str()));
    if a.subsample > 1 {
        push_text(&mut v, concat("n_subsample=", decimal_string(a.subsample as u64).as_str()));
    }
    let four_k = is_4k_model(width, height, a.scale.as_str());
    let model = if four_k {
        "vmaf_4k_v0.6.1"
    } else {
        "vmaf_v0.6.1"
    };
    push_text(&mut v, concat("model=version=", model));
    match &a.output {
        Some(p) => {
            push_text(&mut v, owned("log_fmt=json"));
            let quoted = concat(concat("log_path='", p.as_str()).as_str(), "'");
            push_text(&mut v, quoted);
        },
        None => {},
    }
    assert(texts(v@) =~= vmaf_options(*a, cpus, width, height));
    v
}

/// Whether the 4K model is used.
fn is_4k_model(width: u32, height: u32, scale: &str) -> (b: bool)
    ensures
        b == uses_4k_model(width, height, scale@),
{
    let requested: u64 = match parse_unsigned(scale, 4294967295) {
        Some(v) => v,
        None => 0,
    };
    (height >= 2160 || width >= 3840) && (requested == 0 || requested >= 2160)
}

/// The filter graph of a run.
fn filter_for(a: &VmafArgs, cpus: usize, width: u32, height: u32) -> (f: String)
    ensures
        f@ == vmaf_filter(*a, cpus, width, height),
{
    let step = if !is_4k_model(width, height, a.scale.as_str()) && !str_eq(a.scale.as_str(), "0") {
        concat(concat("scale_cuda=-2:", a.scale.as_str()).as_str(), ",")
    } else {
        proof {
            reveal_strlit("");
        }
        owned("")
    };
    let opts = options_for(a, cpus, width, height);
    let mut f = owned("[0:v]");
    f.append(step.as_str());
    f.append("hwdownload,format=nv12,setpts=PTS-STARTPTS[main];         [1:v]");
    f.append(step.as_str());
    f.append("hwdownload,format=nv12,setpts=PTS-STARTPTS[ref];         [main][ref]libvmaf=");
    f.append(join_strings(&opts, ":").as_str());
    f
}

/// Appends one input of the comparison.
fn push_input(v: &mut Vec<String>, start: u64, duration: &str, file: &str)
    ensures
        texts(final(v)@) == texts(old(v)@) + vmaf_input(start, duration@, file@),
{
    if start > 0 {
        push_text(v, owned("-ss"));
        push_text(v, decimal_string(start));
    }
    push_text(v, owned("-t"));
    push_text(v, owned(duration));
    push_text(v, owned("-hwaccel"));
    push_text(v, owned("cuda"));
    push_text(v, owned("-hwaccel_output_format"));
    push_text(v, owned("cuda"));
    push_text(v, owned("-i"));
    push_text(v, owned(file));
    assert(texts(v@) =~= texts(old(v)@) + vmaf_input(start, duration@, file@));
}

/// The arguments of the VMAF comparison on a machine with `cpus` CPUs, for
/// a source of the given size, over `duration` seconds given as decimal text.
pub fn vmaf_command_for(a: &VmafArgs, cpus: usize, width: u32, height: u32, duration: &str) -> (v: Vec<String>)
    ensures
        texts(v@) == vmaf_args(*a, cpus, width, height, duration@),
{
    let mut v: Vec<String> = Vec::new();
    push_text(&mut v, owned("-hide_banner"));
    push_text(&mut v, owned("-stats"));
    push_text(&mut v, owned("-loglevel"));
    push_text(&mut v, owned("info"));
    push_input(&mut v, a.start, duration, a.encoded.as_str());
    push_input(&mut v, a.start, duration, a.original.as_str());
    push_text(&mut v, owned("-lavfi"));
    push_text(&mut v, filter_for(a, cpus, width, height));
    push_text(&mut v, owned("-f"));
    push_text(&mut v, owned("null"));
    push_text(&mut v, owned("-"));
    assert(texts(v@) =~= vmaf_args(*a, cpus, width, height, duration@));
    v
}

/// The arguments of the VMAF comparison on this machine. The CPU count only
/// matters when no thread count is given.
pub fn vmaf_command(a: &VmafArgs, width: u32, height: u32, duration: &str) -> (v: Vec<String>)
    ensures
        exists|cpus: usize| cpus >= 1 && texts(v@) == vmaf_args(*a, cpus, width, height, duration@),
        a.threads != 0 ==> texts(v@) == vmaf_args(*a, 1, width, height, duration@),
{
    let cpus = available_cpus();
    let v = vmaf_command_for(a, cpus, width, height, duration);
    assert(a.threads != 0 ==> vmaf_options(*a, cpus, width, height) == vmaf_options(*a, 1, width, height));
    v
}

/// FFmpeg can compute VMAF when its filter list names `libvmaf`.
pub fn has_vmaf_filter(filters: &str) -> (b: bool)
    ensures
        b == has_infix(filters@, "libvmaf"@),
{
    str_contains(filters, "libvmaf")
}

} // verus!
