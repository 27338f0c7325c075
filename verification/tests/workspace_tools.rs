use media_forge::constants::{spinner_count, work_queue_capacity};
use media_forge::mf_archive::{cbz_entry_name, cbz_entry_names, cbz_files, dry_run_action};
use media_forge::mf_core::{CpuControl, Naming, Scanner};
use media_forge::mf_image::{collect_archive_tasks, file_tasks, short_label};
use media_forge::mf_video::{encode_arguments, encoded_path, file_label, queues_video, video_file};
use media_forge::paths::MPath;
use media_forge::scanner::WalkEntry;
use media_forge::walker::ArchiveEntry;

#[test]
fn core_scanner_uses_its_own_lists() {
    let entries = vec![
        WalkEntry { path: MPath::parse("/r/a.avif"), depth: 1, is_file: true, leads_to_file: true },
        WalkEntry { path: MPath::parse("/r/b.webm"), depth: 1, is_file: true, leads_to_file: true },
        WalkEntry { path: MPath::parse("/r/c.Jpeg"), depth: 1, is_file: true, leads_to_file: true },
        WalkEntry { path: MPath::parse("/r/d.ts"), depth: 1, is_file: true, leads_to_file: true },
    ];
    let found: Vec<String> = Scanner::new(2).scan(&entries).iter().map(|p| p.render()).collect();
    assert_eq!(found, vec!["/r/c.Jpeg", "/r/d.ts"]);
}

#[test]
fn core_thread_count_defaults_to_half() {
    assert_eq!(CpuControl::thread_count_for(8, None), 4);
    assert_eq!(CpuControl::thread_count_for(1, None), 1);
    assert_eq!(CpuControl::thread_count_for(8, Some(100)), 6);
    assert_eq!(CpuControl::thread_count_for(5, Some(4)), 4);
}

#[test]
fn core_naming_cuts_bytes() {
    assert_eq!(Naming::truncate_filename("short", 10), "short");
    assert_eq!(Naming::truncate_filename("very_long_filename.txt", 10), "very_lo...");
    assert!(Naming::is_cover_image("000_Cover.jpg"));
    assert!(Naming::is_cover_image("000.png"));
    assert!(Naming::is_cover_image("BackCover.png"));
    assert!(!Naming::is_cover_image("Folder.jpg"));
}

#[test]
fn cbz_pages_are_renamed() {
    assert_eq!(cbz_entry_name(0, 5, "a.jpg"), "000_cover.jpg");
    assert_eq!(cbz_entry_name(4, 5, "e.PNG"), "999_back.PNG");
    assert_eq!(cbz_entry_name(2, 5, "c.webp"), "page_002.webp");
    assert_eq!(cbz_entry_name(1, 5, "noext"), "page_001.");
    let names = cbz_entry_names(&vec!["x.jpg".to_string(), "y.jpg".to_string(), "z.xml".to_string()]);
    assert_eq!(names, vec!["000_cover.jpg", "page_001.jpg", "999_back.xml"]);
    assert_eq!(cbz_entry_names(&vec!["only.png".to_string()]), vec!["000_cover.png"]);
    assert_eq!(dry_run_action(true), "ARCHIVE & DELETE");
    assert_eq!(dry_run_action(false), "ARCHIVE");
}

#[test]
fn cbz_files_skip_avif_in_the_separate_tool() {
    let entries = vec![
        ("b.avif".to_string(), true),
        ("10.jpg".to_string(), true),
        ("9.jpg".to_string(), true),
        ("ComicInfo.xml".to_string(), true),
    ];
    assert_eq!(cbz_files(&entries).unwrap(), vec!["9.jpg", "10.jpg", "ComicInfo.xml"]);
    assert!(cbz_files(&vec![("x.avif".to_string(), true)]).is_none());
}

#[test]
fn separate_video_tool_decisions() {
    assert!(video_file(&MPath::parse("/v/a.MKV")));
    assert!(!video_file(&MPath::parse("/v/a.webm")));
    assert_eq!(encoded_path(&MPath::parse("/v/s/a.mp4"), &MPath::parse("/v"), &MPath::parse("/o"), "mkv").render(), "/o/s/a.mkv");
    assert!(queues_video("h264", true, false));
    assert!(!queues_video("h264", true, true));
    let args = encode_arguments("in.mkv", "out.mkv", "p6", 28, "mkv");
    let expected: Vec<&str> = vec![
        "-y", "-hide_banner", "-loglevel", "info", "-hwaccel", "cuda", "-hwaccel_output_format", "cuda", "-i",
        "in.mkv", "-c:v", "av1_nvenc", "-preset", "p6", "-tune", "hq", "-cq", "28", "-c:a", "copy", "-c:s",
        "copy", "out.mkv",
    ];
    assert_eq!(args, expected);
    assert_eq!(file_label(&MPath::parse("/")), "unknown");
}

#[test]
fn separate_image_tool_tasks() {
    let src = MPath::parse("/in");
    let dest = MPath::parse("/out");
    let entries = vec![
        ArchiveEntry { name: "p1.jpg".to_string(), is_file: true },
        ArchiveEntry { name: "p2.avif".to_string(), is_file: true },
        ArchiveEntry { name: "dir/".to_string(), is_file: false },
    ];
    let ts = collect_archive_tasks(&MPath::parse("/in/b/v.zip"), &entries, &src, &dest, "webp");
    assert_eq!(ts.len(), 1);
    assert_eq!(ts[0].dest_path.render(), "/out/b/v/p1.webp");
    let from_zip = file_tasks(&MPath::parse("/in/b/v.zip"), &Some(entries), &src, &dest, "webp");
    assert_eq!(from_zip.len(), 1);
    assert!(file_tasks(&MPath::parse("/in/b/v.zip"), &None, &src, &dest, "webp").is_empty());
    let img = file_tasks(&MPath::parse("/in/a.PNG"), &None, &src, &dest, "avif");
    assert_eq!(img[0].dest_path.render(), "/out/a.avif");
    assert!(file_tasks(&MPath::parse("/in/a.avif"), &None, &src, &dest, "webp").is_empty());
    assert_eq!(short_label("short.jpg"), "short.jpg");
    assert_eq!(short_label("abcdefghijklmnopqrstuvwxyz0123456789.jpg"), "...nopqrstuvwxyz0123456789.jpg");
}

#[test]
fn derived_sizes() {
    assert_eq!(spinner_count(3), 3);
    assert_eq!(spinner_count(32), 8);
    assert_eq!(work_queue_capacity(6), 12);
}

#[test]
fn core_cover_name_check_takes_a_lowercase_name() {
    assert!(Naming::is_cover_name("000_cover.jpg"));
    assert!(Naming::is_cover_name("backcover.png"));
    assert!(!Naming::is_cover_name("BACKCOVER.png"));
    assert!(!Naming::is_cover_name("folder.jpg"));
}
