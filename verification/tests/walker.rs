use std::cell::RefCell;
use media_forge::paths::MPath;
use media_forge::walker::{ArchiveEntry, FsNode, MediaSource, Walker};

fn file(path: &str) -> FsNode {
    FsNode::File { path: MPath::parse(path), archive: None }
}

fn dir(path: &str, children: Vec<FsNode>) -> FsNode {
    FsNode::Dir { path: MPath::parse(path), error: None, children }
}

#[test]
fn test_walker_scan_flat() {
    let root = dir(
        "/tmp/t",
        vec![file("/tmp/t/test1.jpg"), file("/tmp/t/test2.png"), file("/tmp/t/other.txt")],
    );
    let walker = Walker::new(&["jpg", "png"], 1, false);
    let assets = walker.scan_flat(&root);
    assert_eq!(assets.len(), 2);
}

#[test]
fn test_walker_recursive() {
    let root = dir(
        "/tmp/t",
        vec![dir("/tmp/t/sub", vec![file("/tmp/t/sub/sub.jpg")]), file("/tmp/t/root.jpg")],
    );
    let walker = Walker::new(&["jpg"], 2, true);
    assert_eq!(walker.scan_flat(&root).len(), 2);

    let walker_no_rec = Walker::new(&["jpg"], 2, false);
    assert_eq!(walker_no_rec.scan_flat(&root).len(), 1);
}

#[test]
fn test_walker_archive_inspection() {
    let cbz = FsNode::File {
        path: MPath::parse("/tmp/t/test.cbz"),
        archive: Some(vec![
            ArchiveEntry { name: "img1.jpg".to_string(), is_file: true },
            ArchiveEntry { name: "notes.txt".to_string(), is_file: true },
        ]),
    };
    let root = dir("/tmp/t", vec![cbz]);
    let walker = Walker::new(&["jpg"], 1, false);
    let assets = walker.scan_flat(&root);
    assert_eq!(assets.len(), 1);
    match &assets[0].source {
        MediaSource::Archive { archive_path, entry_name } => {
            assert_eq!(archive_path.render(), "/tmp/t/test.cbz");
            assert_eq!(entry_name, "img1.jpg");
        }
        MediaSource::Filesystem(_) => panic!("expected an archive entry"),
    }
}

#[test]
fn test_scan_grouped() {
    let root = dir(
        "/tmp/t",
        vec![
            dir("/tmp/t/sub1", vec![file("/tmp/t/sub1/a.jpg"), file("/tmp/t/sub1/b.jpg")]),
            dir("/tmp/t/sub2", vec![file("/tmp/t/sub2/c.jpg")]),
        ],
    );
    let walker = Walker::new(&["jpg"], 2, true);
    let groups = walker.scan_grouped(&root);
    assert_eq!(groups.len(), 2);
    assert_eq!(groups[0].0.render(), "/tmp/t/sub1");
    assert_eq!(groups[0].1.len(), 2);
    assert_eq!(groups[1].0.render(), "/tmp/t/sub2");
    assert_eq!(groups[1].1.len(), 1);
}

#[test]
fn walker_depth_limit_stops_descent() {
    let root = dir(
        "/r",
        vec![dir("/r/a", vec![dir("/r/a/b", vec![file("/r/a/b/deep.jpg")]), file("/r/a/mid.jpg")])],
    );
    let walker = Walker::new(&["jpg"], 1, true);
    let assets = walker.scan_flat(&root);
    assert_eq!(assets.len(), 1);
    assert_eq!(assets[0].path.render(), "/r/a/mid.jpg");
}

#[test]
fn walker_extension_match_ignores_case_and_unreadable_folders() {
    let unreadable = FsNode::Dir {
        path: MPath::parse("/r/locked"),
        error: Some("Permission denied".to_string()),
        children: vec![file("/r/locked/x.jpg")],
    };
    let root = dir("/r", vec![file("/r/UPPER.JPG"), unreadable]);
    let walker = Walker::new(&["jpg"], 3, true);
    let assets = walker.scan_flat(&root);
    assert_eq!(assets.len(), 1);
    assert_eq!(assets[0].path.render(), "/r/UPPER.JPG");
}

#[test]
fn walker_single_file_root_and_unreadable_archive() {
    let walker = Walker::new(&["png"], 0, false);
    assert_eq!(walker.scan_flat(&file("/x/one.png")).len(), 1);
    let broken = FsNode::File { path: MPath::parse("/x/broken.zip"), archive: None };
    assert_eq!(walker.scan_flat(&broken).len(), 0);
}

#[test]
fn walker_progress_reports_containers_and_items() {
    let seen: RefCell<Vec<(usize, usize)>> = RefCell::new(Vec::new());
    let root = dir("/r", vec![file("/r/a.jpg"), file("/r/b.txt")]);
    let walker = Walker::new(&["jpg"], 1, false);
    let assets = walker.scan_with_progress(&root, |c, i| seen.borrow_mut().push((c, i)));
    assert_eq!(assets.len(), 1);
    assert_eq!(seen.into_inner(), vec![(1, 0), (1, 1)]);
}

#[test]
fn grouping_keeps_scan_order_within_each_directory() {
    let root = dir(
        "/g",
        vec![
            dir("/g/b", vec![file("/g/b/2.jpg")]),
            file("/g/top.jpg"),
            dir("/g/b/c", vec![file("/g/b/c/9.jpg")]),
        ],
    );
    let walker = Walker::new(&["jpg"], 3, true);
    let flat = walker.scan_flat(&root);
    let groups = walker.scan_grouped(&root);
    let total: usize = groups.iter().map(|g| g.1.len()).sum();
    assert_eq!(total, flat.len());
    for (i, g) in groups.iter().enumerate() {
        assert!(!g.1.is_empty());
        for other in &groups[i + 1..] {
            assert_ne!(g.0.render(), other.0.render());
        }
    }
}
