use media_forge::image::quality::{check_dimensions, quality_outcome};
use media_forge::image::{retries_as_avif, ImageError};
use media_forge::paths::MPath;
use media_forge::summary::total_bytes;
use media_forge::video::probe::{video_codec, ProbeInfo, ProbeStream};
use media_forge::video::vmaf::has_vmaf_filter;

fn stream(t: Option<&str>, n: Option<&str>) -> ProbeStream {
    ProbeStream { codec_type: t.map(|s| s.to_string()), codec_name: n.map(|s| s.to_string()) }
}

#[test]
fn dimensions_must_match() {
    assert!(check_dimensions((10, 20), (10, 20)).is_ok());
    assert!(matches!(check_dimensions((10, 20), (20, 10)), Err(ImageError::DimensionMismatch((10, 20), (20, 10)))));
}

#[test]
fn avif_fallback_by_extension() {
    assert!(retries_as_avif(&MPath::parse("/a/b.AVIF")));
    assert!(!retries_as_avif(&MPath::parse("/a/b.png")));
    assert!(!retries_as_avif(&MPath::parse("/a/avif")));
}

#[test]
fn sizes_sum_and_cap() {
    assert_eq!(total_bytes(&vec![1, 2, 3]), 6);
    assert_eq!(total_bytes(&vec![u64::MAX, 5]), u64::MAX);
    assert_eq!(total_bytes(&Vec::new()), 0);
}

#[test]
fn probe_codec_is_first_video_stream() {
    let info = ProbeInfo {
        format_duration: Some("12.5".to_string()),
        streams: vec![stream(Some("audio"), Some("aac")), stream(Some("video"), Some("h264")), stream(Some("video"), Some("av1"))],
    };
    assert_eq!(video_codec(&info), "h264");
    let nameless = ProbeInfo { format_duration: None, streams: vec![stream(Some("video"), None), stream(Some("video"), Some("av1"))] };
    assert_eq!(video_codec(&nameless), "unknown");
    let none = ProbeInfo { format_duration: None, streams: vec![stream(None, Some("x"))] };
    assert_eq!(video_codec(&none), "unknown");
}

#[test]
fn vmaf_filter_detection() {
    assert!(has_vmaf_filter(" ... T.. libvmaf  VV->V  Calculate the VMAF"));
    assert!(!has_vmaf_filter("scale_cuda"));
}

#[test]
fn quality_run_fails_on_the_first_size_mismatch() {
    assert!(quality_outcome(&vec![]).is_ok());
    assert!(quality_outcome(&vec![((4, 4), (4, 4)), ((8, 2), (8, 2))]).is_ok());
    let r = quality_outcome(&vec![((4, 4), (4, 4)), ((8, 2), (2, 8)), ((1, 1), (3, 3))]);
    assert!(matches!(r, Err(ImageError::DimensionMismatch((8, 2), (2, 8)))));
}
