use media_forge::image::convert::{
    archive_entry_task, collect_tasks, generate_archive_task, generate_filesystem_task, get_container_name,
    plan_task_step, task_display_name, Encoder, Task, TaskStep, TaskType,
};
use media_forge::paths::MPath;
use media_forge::walker::{Asset, MediaSource};

fn fs_asset(p: &str) -> Asset {
    Asset { path: MPath::parse(p), source: MediaSource::Filesystem(MPath::parse(p)) }
}

#[test]
fn filesystem_tasks_convert_stills_and_copy_the_rest() {
    let src = MPath::parse("/in");
    let dest = MPath::parse("/out");
    let t = generate_filesystem_task(&MPath::parse("/in/a/pic.JPG"), &src, false, &dest, "avif", false).unwrap();
    assert_eq!(t.dest_path.render(), "/out/a/pic.avif");
    assert!(matches!(t.task_type, TaskType::File));
    let w = generate_filesystem_task(&MPath::parse("/in/b.webp"), &src, false, &dest, "avif", false).unwrap();
    assert_eq!(w.dest_path.render(), "/out/b.webp");
    assert!(matches!(w.task_type, TaskType::Copy));
    let apng = generate_filesystem_task(&MPath::parse("/in/moving.png"), &src, false, &dest, "avif", true).unwrap();
    assert_eq!(apng.dest_path.render(), "/out/moving.png");
    assert!(matches!(apng.task_type, TaskType::Copy));
    let gif = generate_filesystem_task(&MPath::parse("/in/loop.gif"), &src, false, &dest, "avif", true).unwrap();
    assert!(matches!(gif.task_type, TaskType::Copy));
    assert!(generate_filesystem_task(&MPath::parse("/in/still.gif"), &src, false, &dest, "avif", false).is_none());
    assert!(generate_filesystem_task(&MPath::parse("/in/clip.mkv"), &src, false, &dest, "avif", false).is_none());
    assert!(generate_filesystem_task(&MPath::parse("/in/readme.txt"), &src, false, &dest, "avif", false).is_none());
}

#[test]
fn archive_entries_are_converted_or_extracted() {
    let src = MPath::parse("/in");
    let dest = MPath::parse("/out");
    let archive = MPath::parse("/in/set/book.cbz");
    let c = archive_entry_task(&archive, "p1.png", &src, &dest, "webp", false).unwrap();
    assert!(matches!(&c.task_type, TaskType::Archive { internal_path } if internal_path == "p1.png"));
    assert_eq!(c.dest_path.render(), "/out/set/book/p1.webp");
    let k = archive_entry_task(&archive, "cover.avif", &src, &dest, "webp", false).unwrap();
    assert!(matches!(&k.task_type, TaskType::ArchiveCopy { internal_path } if internal_path == "cover.avif"));
    assert_eq!(k.dest_path.render(), "/out/set/book/cover.avif");
    assert!(archive_entry_task(&archive, "notes.txt", &src, &dest, "webp", false).is_none());
}

#[test]
fn single_file_source_targets() {
    let src = MPath::parse("/in/one.png");
    let t = generate_filesystem_task(&src, &src, true, &MPath::parse("/out/final.webp"), "avif", false).unwrap();
    assert_eq!(t.dest_path.render(), "/out/final.webp");
    let t = generate_filesystem_task(&src, &src, true, &MPath::parse("/out"), "webp", false).unwrap();
    assert_eq!(t.dest_path.render(), "/out/one.webp");
}

#[test]
fn archive_entries_go_under_the_archive_stem() {
    let t = generate_archive_task(
        &MPath::parse("/in/books/vol1.cbz"),
        "ch1/p01.jpg",
        &MPath::parse("/in"),
        &MPath::parse("/out"),
        "avif",
    );
    assert_eq!(t.dest_path.render(), "/out/books/vol1/ch1/p01.avif");
    assert_eq!(get_container_name(&t, &MPath::parse("/in")), "vol1.cbz");
}

#[test]
fn container_names_and_plan_order() {
    let assets = vec![
        fs_asset("/in/z/1.jpg"),
        fs_asset("/in/a/2.jpg"),
        fs_asset("/in/top.png"),
        fs_asset("/in/a/3.jpg"),
        fs_asset("/in/a/notes.txt"),
    ];
    let animated = vec![false; assets.len()];
    let plan = collect_tasks(&assets, &animated, &MPath::parse("/in"), false, &MPath::parse("/out"), "webp");
    assert_eq!(plan.total_files, 4);
    let names: Vec<&str> = plan.containers.iter().map(|(n, _)| n.as_str()).collect();
    assert_eq!(names, vec!["", "a", "z"]);
    assert_eq!(plan.containers[0].1.len(), 1);
    assert_eq!(plan.containers[1].1.len(), 2);
    assert_eq!(plan.containers[1].1[0].src_path.render(), "/in/a/2.jpg");
    assert_eq!(plan.containers[1].1[1].src_path.render(), "/in/a/3.jpg");
    assert!(plan.containers.iter().all(|(_, tasks)| !tasks.is_empty()));
}

#[test]
fn task_steps() {
    assert!(matches!(plan_task_step(&TaskType::File, Some(5), false, false, "avif"), TaskStep::Skip));
    assert!(matches!(
        plan_task_step(&TaskType::File, Some(0), false, false, "avif"),
        TaskStep::Convert { encoder: Encoder::Avif, preserve_mtime: true }
    ));
    assert!(matches!(
        plan_task_step(&TaskType::Archive { internal_path: "x.png".to_string() }, None, false, false, "webp"),
        TaskStep::Convert { encoder: Encoder::Webp, preserve_mtime: false }
    ));
    assert!(matches!(
        plan_task_step(&TaskType::Copy, Some(9), true, true, "avif"),
        TaskStep::Copy { preserve_mtime: false }
    ));
    assert!(matches!(
        plan_task_step(&TaskType::Copy, None, false, false, "avif"),
        TaskStep::Copy { preserve_mtime: true }
    ));
    assert!(matches!(
        plan_task_step(&TaskType::ArchiveCopy { internal_path: "a.webp".to_string() }, None, false, false, "avif"),
        TaskStep::Copy { preserve_mtime: false }
    ));
}

#[test]
fn display_names_are_shortened_from_the_start() {
    let t = Task {
        src_path: MPath::parse("/in/a_really_long_file_name_for_testing_purposes.jpg"),
        dest_path: MPath::parse("/out/x.avif"),
        task_type: TaskType::File,
    };
    assert_eq!(task_display_name(&t), "...me_for_testing_purposes.jpg");
    let a = Task {
        src_path: MPath::parse("/in/b.cbz"),
        dest_path: MPath::parse("/out/b/p.avif"),
        task_type: TaskType::Archive { internal_path: "p.jpg".to_string() },
    };
    assert_eq!(task_display_name(&a), "p.jpg");
}
