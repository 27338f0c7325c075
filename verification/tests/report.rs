use media_forge::image::report::{
    archive_entry_counterpart, choose_comparison, report_path, run_quality, single_file_counterpart,
    space_saved, tree_file_counterpart, Comparison, DiskFacts,
};
use media_forge::image::{ImageError, QualityArgs};
use media_forge::paths::MPath;

fn facts(sf: bool, sd: bool, df: bool, dd: bool) -> DiskFacts {
    DiskFacts { source_is_file: sf, source_is_dir: sd, dest_is_file: df, dest_is_dir: dd }
}

#[test]
fn report_goes_into_destination_folder_or_next_to_file() {
    assert_eq!(report_path(&MPath::parse("/out"), true).render(), "/out/report.csv");
    assert_eq!(report_path(&MPath::parse("/out/x.avif"), false).render(), "/out/report.csv");
    assert_eq!(report_path(&MPath::parse("x.avif"), false).render(), "report.csv");
}

#[test]
fn comparison_depends_on_what_the_paths_are() {
    let cbz = MPath::parse("/in/book.CBZ");
    assert!(matches!(choose_comparison(&cbz, &facts(true, false, false, true)), Comparison::ArchiveEntries));
    assert!(matches!(choose_comparison(&cbz, &facts(true, false, true, false)), Comparison::ArchiveToFile));
    let img = MPath::parse("/in/a.png");
    assert!(matches!(choose_comparison(&img, &facts(true, false, true, false)), Comparison::FileToFile));
    assert!(matches!(choose_comparison(&img, &facts(true, false, false, true)), Comparison::FileIntoDir));
    assert!(matches!(choose_comparison(&img, &facts(true, false, false, false)), Comparison::FileToNothing));
    let d = MPath::parse("/in");
    assert!(matches!(choose_comparison(&d, &facts(false, true, false, true)), Comparison::Directory));
    assert!(matches!(choose_comparison(&d, &facts(false, true, true, false)), Comparison::DirectoryToFile));
    assert!(matches!(choose_comparison(&d, &facts(false, false, false, false)), Comparison::Nothing));
}

#[test]
fn run_quality_plans_the_report() {
    let args = QualityArgs {
        original: MPath::parse("/in"),
        distorted: MPath::parse("/out"),
        format: "avif".to_string(),
    };
    let plan = run_quality(&args, &facts(false, true, false, true));
    assert_eq!(plan.report_path.render(), "/out/report.csv");
    assert!(matches!(plan.comparison, Comparison::Directory));
}

#[test]
fn counterparts_of_sources() {
    let dest = MPath::parse("/out");
    assert_eq!(archive_entry_counterpart(&dest, "ch/01.JPG", "avif").unwrap().render(), "/out/ch/01.avif");
    assert!(archive_entry_counterpart(&dest, "ch/info.xml", "avif").is_none());
    assert_eq!(single_file_counterpart(&MPath::parse("/in/a.png"), &dest, false, "webp").render(), "/out/a.webp");
    assert_eq!(single_file_counterpart(&MPath::parse("/in/a.png"), &MPath::parse("/o/b.avif"), true, "webp").render(), "/o/b.avif");
    let r = tree_file_counterpart(&MPath::parse("/in"), &MPath::parse("/in/s/a.tiff"), &dest, "avif");
    assert_eq!(r.unwrap().unwrap().render(), "/out/s/a.avif");
    assert!(tree_file_counterpart(&MPath::parse("/in"), &MPath::parse("/in/s/a.doc"), &dest, "avif").unwrap().is_none());
    assert!(matches!(
        tree_file_counterpart(&MPath::parse("/in"), &MPath::parse("/other/a.png"), &dest, "avif"),
        Err(ImageError::Io(_))
    ));
}

#[test]
fn space_saved_sums_then_saturates() {
    assert_eq!(space_saved(&vec![(100, 40), (50, 20)]), 90);
    assert_eq!(space_saved(&vec![(10, 40)]), 0);
    assert_eq!(space_saved(&Vec::new()), 0);
}
