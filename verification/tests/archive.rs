use media_forge::image::archive::{
    cbz_destination, collect_and_sort_images, collect_archive_tasks, confirms_deletion, next_archive_step,
    removes_source, searches_recursively, settle_archive, verify_archive, warning_listing, zip_entry_name, ArchiveStep,
};
use media_forge::image::ImageError;
use media_forge::paths::MPath;
use media_forge::walker::FsNode;

fn file(path: &str) -> FsNode {
    FsNode::File { path: MPath::parse(path), archive: None }
}

fn dir(path: &str, children: Vec<FsNode>) -> FsNode {
    FsNode::Dir { path: MPath::parse(path), error: None, children }
}

fn listing(names: &[(&str, bool)]) -> Vec<(String, bool)> {
    names.iter().map(|(n, f)| (n.to_string(), *f)).collect()
}

#[test]
fn folders_with_images_become_archives_next_to_them() {
    let root = dir(
        "/m",
        vec![
            dir("/m/vol1", vec![file("/m/vol1/01.jpg"), file("/m/vol1/02.jpg")]),
            dir("/m/notes", vec![file("/m/notes/a.txt")]),
            dir("/m/vol2", vec![dir("/m/vol2/extra", vec![file("/m/vol2/extra/x.png")])]),
        ],
    );
    let tasks = collect_archive_tasks(&root, &None, true, |_p: &MPath| {}).unwrap();
    let found: Vec<(String, String)> =
        tasks.iter().map(|t| (t.src_dir.render(), t.dest_cbz.render())).collect();
    assert_eq!(
        found,
        vec![
            ("/m/vol1".to_string(), "/m/vol1.cbz".to_string()),
            ("/m/vol2/extra".to_string(), "/m/vol2/extra.cbz".to_string()),
        ]
    );
    let flat = collect_archive_tasks(&root, &None, false, |_p: &MPath| {}).unwrap();
    assert!(flat.is_empty());
}

#[test]
fn destination_root_keeps_relative_layout() {
    let dest = Some(MPath::parse("/archives"));
    let p = cbz_destination(&MPath::parse("/m/series/vol3"), &MPath::parse("/m"), &dest).unwrap();
    assert_eq!(p.render(), "/archives/series/vol3.cbz");
    let q = cbz_destination(&MPath::parse("/elsewhere/x"), &MPath::parse("/m"), &dest);
    assert!(matches!(q, Err(ImageError::Io(_))));
}

#[test]
fn unreadable_folder_is_an_error() {
    let bad = FsNode::Dir { path: MPath::parse("/m"), error: Some("denied".to_string()), children: vec![] };
    assert!(matches!(collect_archive_tasks(&bad, &None, true, |_p: &MPath| {}), Err(ImageError::Io(m)) if m == "denied"));
    assert!(matches!(collect_archive_tasks(&file("/m/a.jpg"), &None, true, |_p: &MPath| {}), Err(ImageError::Io(_))));
}

#[test]
fn files_are_filtered_and_naturally_sorted() {
    let entries = listing(&[
        ("page10.jpg", true),
        ("page2.jpg", true),
        ("info.XML", true),
        ("readme.txt", true),
        ("page1.PNG", true),
        ("sub.jpg", false),
    ]);
    let files = collect_and_sort_images(&entries, &MPath::parse("/m/v")).unwrap();
    assert_eq!(files, vec!["info.XML", "page1.PNG", "page2.jpg", "page10.jpg"]);
    let none = collect_and_sort_images(&listing(&[("a.txt", true)]), &MPath::parse("/m/v"));
    assert!(matches!(none, Err(ImageError::NoImagesFound(p)) if p.render() == "/m/v"));
}

#[test]
fn run_steps_and_confirmation() {
    assert!(matches!(next_archive_step(0, false, true, false), ArchiveStep::NothingToDo));
    assert!(matches!(next_archive_step(3, true, true, false), ArchiveStep::Preview { delete: true }));
    assert!(matches!(next_archive_step(3, false, true, false), ArchiveStep::Confirm));
    assert!(matches!(next_archive_step(3, false, true, true), ArchiveStep::Execute));
    assert!(confirms_deletion("  DELETE\n"));
    assert!(!confirms_deletion("delete"));
    assert!(!confirms_deletion("DELETE!"));
    assert_eq!(warning_listing(3), (3, 0));
    assert_eq!(warning_listing(14), (10, 4));
    assert!(searches_recursively(false, true, true));
    assert!(!searches_recursively(false, true, false));
    assert!(!searches_recursively(true, false, true));
    assert!(removes_source(true, false));
    assert!(!removes_source(true, true));
}

#[test]
fn verification_and_entry_names() {
    assert!(verify_archive(&MPath::parse("/a.cbz"), 4, 4).is_ok());
    assert!(matches!(verify_archive(&MPath::parse("/a.cbz"), 3, 4), Err(ImageError::VerificationFailed(_))));
    assert_eq!(zip_entry_name(&MPath::parse("/m/v/01.jpg")).unwrap(), "01.jpg");
    assert!(matches!(zip_entry_name(&MPath::parse("/")), Err(ImageError::InvalidFilename(_))));
}

#[test]
fn settling_removes_only_verified_archives() {
    let p = MPath::parse("/out/v.cbz");
    assert_eq!(settle_archive(&p, 3, 3, true, false).unwrap(), true);
    assert_eq!(settle_archive(&p, 3, 3, false, false).unwrap(), false);
    assert_eq!(settle_archive(&p, 3, 3, true, true).unwrap(), false);
    assert!(matches!(settle_archive(&p, 2, 3, true, false), Err(ImageError::VerificationFailed(q)) if q.render() == "/out/v.cbz"));
}

#[test]
fn sorted_pages_never_order_after_their_successor() {
    let entries = listing(&[
        ("p 3.jpg", true),
        ("p10.jpg", true),
        ("p003.jpg", true),
        ("p2.jpg", true),
        ("p3.jpg", true),
    ]);
    let files = collect_and_sort_images(&entries, &MPath::parse("/m/v")).unwrap();
    for w in files.windows(2) {
        assert_ne!(natord::compare(&w[0], &w[1]), std::cmp::Ordering::Greater);
    }
}
