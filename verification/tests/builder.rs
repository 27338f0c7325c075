use media_forge::paths::MPath;
use media_forge::video::builder::{FfmpegCommandBuilder, HwAccel, VideoCodec};

fn arg_list(cmd: &media_forge::video::builder::FfmpegCommand) -> Vec<String> {
    cmd.get_args().clone()
}

#[test]
fn test_builder_basic() {
    let builder = FfmpegCommandBuilder::new(&MPath::parse("in.mp4"), &MPath::parse("out.mkv"))
        .hwaccel(HwAccel::Cuda)
        .video_codec(VideoCodec::Av1Nvenc)
        .preset("p6")
        .cq(28);

    let cmd = builder.build();
    let args = arg_list(&cmd);
    let args: Vec<&str> = args.iter().map(|s| s.as_str()).collect();

    assert!(args.contains(&"-y"));
    assert!(args.contains(&"cuda"));
    assert!(args.contains(&"av1_nvenc"));
    assert!(args.contains(&"p6"));
    assert!(args.contains(&"28"));
    assert_eq!(cmd.get_program(), "ffmpeg");
}

#[test]
fn test_builder_time_and_duration() {
    let cmd = FfmpegCommandBuilder::new(&MPath::parse("in.mp4"), &MPath::parse("out.mkv"))
        .start_time(10)
        .duration(&30.5f64.to_string())
        .build();

    let args = arg_list(&cmd);
    let ss_idx = args.iter().position(|r| r == "-ss").unwrap();
    assert_eq!(args[ss_idx + 1], "10");
    let t_idx = args.iter().position(|r| r == "-t").unwrap();
    assert_eq!(args[t_idx + 1], "30.5");
}

#[test]
fn test_builder_extra_args() {
    let cmd = FfmpegCommandBuilder::new(&MPath::parse("in.mp4"), &MPath::parse("out.mkv"))
        .arg("-custom")
        .args(&["-a", "b"])
        .build();

    let args = arg_list(&cmd);
    assert!(args.contains(&"-custom".to_string()));
    assert!(args.contains(&"-a".to_string()));
    assert!(args.contains(&"b".to_string()));
}

#[test]
fn builder_orders_every_argument() {
    let cmd = FfmpegCommandBuilder::new(&MPath::parse("/v/in.mp4"), &MPath::parse("/v/out.mkv"))
        .start_time(5)
        .duration("12")
        .hwaccel(HwAccel::Cuda)
        .video_codec(VideoCodec::Av1Nvenc)
        .preset("p7")
        .cq(30)
        .arg("-an")
        .build();
    let expected: Vec<&str> = vec![
        "-y", "-hide_banner", "-loglevel", "error", "-stats", "-ss", "5", "-t", "12", "-hwaccel",
        "cuda", "-hwaccel_output_format", "cuda", "-i", "/v/in.mp4", "-c:v", "av1_nvenc",
        "-preset", "p7", "-cq", "30", "-an", "/v/out.mkv",
    ];
    assert_eq!(arg_list(&cmd), expected);
}

#[test]
fn bare_builder_only_names_input_and_output() {
    let cmd = FfmpegCommandBuilder::new(&MPath::parse("a.mkv"), &MPath::parse("b.mkv")).build();
    let expected: Vec<&str> =
        vec!["-y", "-hide_banner", "-loglevel", "error", "-stats", "-i", "a.mkv", "b.mkv"];
    assert_eq!(arg_list(&cmd), expected);
}
