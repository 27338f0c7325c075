use media_forge::paths::MPath;
use media_forge::video::encode::{
    encode_command, parse_progress, progress_from_fields, progress_pattern, video_destination, video_display_name, wants_encoding,
    whole_seconds, EncodeSettings,
};
use media_forge::video::vmaf::{vmaf_command, vmaf_command_for, VmafArgs};

fn vmaf_args() -> VmafArgs {
    VmafArgs {
        original: "orig.mkv".to_string(),
        encoded: "enc.mkv".to_string(),
        start: 0,
        duration: 60,
        full: false,
        threads: 0,
        subsample: 1,
        scale: "1080".to_string(),
        output: None,
    }
}

#[test]
fn progress_pattern_takes_hours_minutes_and_seconds_in_order() {
    assert_eq!(progress_pattern(), r"time=(\d+):(\d+):(\d+\.\d+)");
    let p = parse_progress("frame=10 time=00:01:02.50 bitrate=1k").unwrap();
    assert_eq!((p.hours, p.minutes, p.seconds.as_str()), (0, 1, "02.50"));
    let q = parse_progress("time=9:8:7 then time=12:34:56.78").unwrap();
    assert_eq!((q.hours, q.minutes, q.seconds.as_str()), (12, 34, "56.78"));
    assert!(parse_progress("time=1:2:3.").is_none());
}

#[test]
fn progress_lines_are_read() {
    let p = parse_progress("frame=  100 fps=25 time=01:02:03.45 bitrate=1000k").unwrap();
    assert_eq!(p.hours, 1);
    assert_eq!(p.minutes, 2);
    assert_eq!(p.seconds, "03.45");
    assert!(parse_progress("frame=1 time=N/A").is_none());
    let q = progress_from_fields("99999999999999999999", "5", "1.0");
    assert_eq!(q.hours, 0);
    assert_eq!(q.minutes, 5);
    assert_eq!(whole_seconds(1, 2), 3720);
}

#[test]
fn encoding_decisions() {
    assert!(wants_encoding("h264", true));
    assert!(!wants_encoding("av1", true));
    assert!(!wants_encoding("hevc", false));
    let d = video_destination(&MPath::parse("/v/show/e1.mp4"), &MPath::parse("/v"), &MPath::parse("/o"), false, "mkv");
    assert_eq!(d.render(), "/o/show/e1.mkv");
    let single = video_destination(&MPath::parse("/v/e1.mp4"), &MPath::parse("/v/e1.mp4"), &MPath::parse("/o/x.mp4"), true, "mkv");
    assert_eq!(single.render(), "/o/x.mp4");
    let into = video_destination(&MPath::parse("/v/e1.mp4"), &MPath::parse("/v/e1.mp4"), &MPath::parse("/o"), true, "mkv");
    assert_eq!(into.render(), "/o/e1.mkv");
    assert_eq!(video_display_name(&MPath::parse("/v/short.mp4")), "short.mp4");
}

#[test]
fn encode_command_sets_subtitle_codec_by_container() {
    let settings = EncodeSettings { preset: "p6".to_string(), cq: 28, ext: "mp4".to_string() };
    let cmd = encode_command(&MPath::parse("/v/a.mkv"), &MPath::parse("/o/a.mp4"), &settings);
    let expected: Vec<&str> = vec![
        "-y", "-hide_banner", "-loglevel", "error", "-stats", "-hwaccel", "cuda", "-hwaccel_output_format",
        "cuda", "-i", "/v/a.mkv", "-c:v", "av1_nvenc", "-preset", "p6", "-cq", "28", "-tune", "hq", "-c:a",
        "copy", "-c:s", "mov_text", "/o/a.mp4",
    ];
    assert_eq!(cmd.get_args().clone(), expected);
    assert_eq!(cmd.get_program(), "ffmpeg");
}

#[test]
fn vmaf_command_for_hd_source() {
    let args = vmaf_command_for(&vmaf_args(), 8, 1920, 1080, "60");
    let filter = "[0:v]scale_cuda=-2:1080,hwdownload,format=nv12,setpts=PTS-STARTPTS[main];         [1:v]scale_cuda=-2:1080,hwdownload,format=nv12,setpts=PTS-STARTPTS[ref];         [main][ref]libvmaf=n_threads=6:model=version=vmaf_v0.6.1";
    let expected: Vec<&str> = vec![
        "-hide_banner", "-stats", "-loglevel", "info", "-t", "60", "-hwaccel", "cuda", "-hwaccel_output_format",
        "cuda", "-i", "enc.mkv", "-t", "60", "-hwaccel", "cuda", "-hwaccel_output_format", "cuda", "-i",
        "orig.mkv", "-lavfi", filter, "-f", "null", "-",
    ];
    assert_eq!(args, expected);
}

#[test]
fn vmaf_command_for_4k_source_with_options() {
    let mut a = vmaf_args();
    a.threads = 3;
    a.subsample = 4;
    a.scale = "0".to_string();
    a.start = 30;
    a.output = Some("scores.json".to_string());
    let args = vmaf_command(&a, 3840, 2160, "12.5");
    assert_eq!(&args[4..6], &["-ss".to_string(), "30".to_string()]);
    let filter = args[args.len() - 4].clone();
    assert_eq!(
        filter,
        "[0:v]hwdownload,format=nv12,setpts=PTS-STARTPTS[main];         [1:v]hwdownload,format=nv12,setpts=PTS-STARTPTS[ref];         [main][ref]libvmaf=n_threads=3:n_subsample=4:model=version=vmaf_4k_v0.6.1:log_fmt=json:log_path='scores.json'"
    );
    let mut b = vmaf_args();
    b.scale = "720".to_string();
    let scaled = vmaf_command_for(&b, 1, 3840, 2160, "1");
    assert!(scaled[scaled.len() - 4].contains("scale_cuda=-2:720,"));
    assert!(scaled[scaled.len() - 4].contains("n_threads=1:model=version=vmaf_v0.6.1"));
}
