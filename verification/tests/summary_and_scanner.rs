use media_forge::paths::MPath;
use media_forge::scanner::{scanning_message, Scanner, WalkEntry};
use media_forge::summary::{ArchiveSummary, ConversionSummary};

fn entry(path: &str, depth: usize, is_file: bool) -> WalkEntry {
    WalkEntry { path: MPath::parse(path), depth, is_file, leads_to_file: is_file }
}

#[test]
fn tally_counts_successes_and_keeps_failures_in_order() {
    let results = vec![
        (MPath::parse("/a.jpg"), Ok(false)),
        (MPath::parse("/b.jpg"), Err("bad header".to_string())),
        (MPath::parse("/c.jpg"), Ok(false)),
        (MPath::parse("/d.jpg"), Err("io".to_string())),
        (MPath::parse("/e.jpg"), Ok(true)),
    ];
    let s = ConversionSummary::tally(5, &results);
    assert_eq!(s.total, 5);
    assert_eq!(s.succeeded, 2);
    assert_eq!(s.skipped, 1);
    assert_eq!(s.succeeded + s.skipped + s.failed.len(), s.total);
    assert_eq!(s.failed.len(), 2);
    assert_eq!(s.failed[0].0.render(), "/b.jpg");
    assert_eq!(s.failed[1].1, "io");
    assert_eq!(s.exit_code(), 1);
    let ok = ConversionSummary::tally(1, &vec![(MPath::parse("/x"), Ok(true))]);
    assert_eq!(ok.exit_code(), 0);
}

#[test]
fn saved_bytes_saturate() {
    let mut s = ConversionSummary::tally(0, &Vec::new());
    s.original_size = 100;
    s.final_size = 30;
    assert_eq!(s.saved_bytes(), 70);
    s.final_size = 300;
    assert_eq!(s.saved_bytes(), 0);
    let a = ArchiveSummary { total: 1, succeeded: 0, failed: vec![(MPath::parse("/d"), "x".to_string())], original_size: 5, final_size: 9 };
    assert_eq!(a.exit_code(), 1);
    assert_eq!(a.saved_bytes(), 0);
}

#[test]
fn scanner_keeps_media_files_within_depth() {
    let entries = vec![
        entry("/r", 0, false),
        entry("/r/a.JPG", 1, true),
        entry("/r/b.txt", 1, true),
        entry("/r/c.mkv", 1, true),
        entry("/r/d.cbz", 1, true),
        entry("/r/sub/deep.png", 2, true),
    ];
    let scanner = Scanner::new(1);
    let found: Vec<String> = scanner.scan(&entries).iter().map(|p| p.render()).collect();
    assert_eq!(found, vec!["/r/a.JPG", "/r/c.mkv", "/r/d.cbz"]);
    let all = scanner.scan_all(&entries);
    assert_eq!(all.len(), 4);
}

#[test]
fn test_scanner_all_files() {
    let entries = vec![
        entry("/t", 0, false),
        entry("/t/test.txt", 1, true),
        entry("/t/test.mp4", 1, true),
        entry("/t/test.jpg", 1, true),
    ];
    let scanner = Scanner::new(1);
    let files = scanner.scan_all(&entries);
    assert_eq!(files.len(), 3);
}

#[test]
fn test_scanner_single_file() {
    let entries = vec![entry("/t/test.mp4", 0, true)];
    let scanner = Scanner::new(1);
    let files = scanner.scan(&entries);
    assert_eq!(files.len(), 1);
    assert_eq!(files[0].render(), "/t/test.mp4");
}

#[test]
fn scanning_message_names_the_file() {
    assert_eq!(scanning_message(&MPath::parse("/x/y.png")), "Scanning: y.png");
    assert_eq!(scanning_message(&MPath::parse("/")), "Scanning: ");
}
