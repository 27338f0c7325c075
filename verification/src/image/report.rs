//! Planning of the post-conversion quality report: where the report goes,
//! what is compared with what, and the size totals it ends with.
use vstd::prelude::*;

use crate::image::archive::prefix_not_found;
use crate::image::{ImageError, ImageErrorView, QualityArgs};
use crate::kinds::{image_extensions, is_image_extension, lower_ext_or_empty, lower_extension_or_empty};
use crate::paths::{extension, file_name, join, parent, parse_text, strip_prefix, with_extension, MPath, PathView};
use crate::summary::saturating_sub;
use crate::text::{ascii_case_equal, ascii_folded, ascii_lower_char, eq_ignore_ascii_case, owned};

verus! {

/// What the quality report compares, decided from what the source and the
/// destination are on disk.
pub enum Comparison {
    /// The images inside a ZIP/CBZ source against their converted files in
    /// the destination folder.
    ArchiveEntries,
    /// An archive source with a destination that is not a folder: nothing
    /// can be compared.
    ArchiveToFile,
    /// A single source image against the destination file.
    FileToFile,
    /// A single source image against its converted name in the destination
    /// folder.
    FileIntoDir,
    /// A single source image whose destination is neither a file nor a
    /// folder: nothing to compare.
    FileToNothing,
    /// Every image under the source folder against its converted name under
    /// the destination folder.
    Directory,
    /// A source folder with a destination that is not a folder: nothing can
    /// be compared.
    DirectoryToFile,
    /// The source is neither a file nor a folder.
    Nothing,
}

/// What is known of the two paths on disk.
pub struct DiskFacts {
    pub source_is_file: bool,
    pub source_is_dir: bool,
    pub dest_is_file: bool,
    pub dest_is_dir: bool,
}

/// The decisions taken before the report is gathered.
pub struct QualityPlan {
    /// Where the CSV report is written.
    pub report_path: MPath,
    /// What is compared with what.
    pub comparison: Comparison,
}

/// The name of the report file.
pub open spec fn report_file_name() -> Seq<char> {
    "report.csv"@
}

/// The report goes into the destination folder, or next to the destination
/// file (into `.` when the destination has no parent).
pub open spec fn report_location(destination: PathView, dest_is_dir: bool) -> PathView {
    if dest_is_dir {
        join(destination, parse_text(report_file_name()))
    } else {
        join(
            match parent(destination) {
                Some(p) => p,
                None => parse_text("."@),
            },
            parse_text(report_file_name()),
        )
    }
}

/// A `zip` or `cbz` extension, in any ASCII case.
pub open spec fn zip_like_extension(p: PathView) -> bool {
    match extension(p) {
        Some(e) => ascii_case_equal(e, "zip"@) || ascii_case_equal(e, "cbz"@),
        None => false,
    }
}

/// The comparison that the report makes for a source and a destination.
pub open spec fn comparison_for(source: PathView, facts: DiskFacts) -> Comparison {
    if facts.source_is_file {
        if zip_like_extension(source) {
            if facts.dest_is_dir {
                Comparison::ArchiveEntries
            } else {
                Comparison::ArchiveToFile
            }
        } else if facts.dest_is_file {
            Comparison::FileToFile
        } else if facts.dest_is_dir {
            Comparison::FileIntoDir
        } else {
            Comparison::FileToNothing
        }
    } else if facts.source_is_dir {
        if facts.dest_is_dir {
            Comparison::Directory
        } else {
            Comparison::DirectoryToFile
        }
    } else {
        Comparison::Nothing
    }
}

/// Where the report of a run with this destination is written.
pub fn report_path(destination: &MPath, dest_is_dir: bool) -> (r: MPath)
    ensures
        r@ == report_location(destination@, dest_is_dir),
{
    let name = MPath::parse("report.csv");
    if dest_is_dir {
        destination.join(&name)
    } else {
        let dir = match destination.parent() {
            Some(p) => p,
            None => MPath::parse("."),
        };
        dir.join(&name)
    }
}

/// Whether a path has a `zip` or `cbz` extension, in any ASCII case.
pub fn has_zip_extension(p: &MPath) -> (b: bool)
    ensures
        b == zip_like_extension(p@),
{
    match p.extension() {
        Some(e) => eq_ignore_ascii_case(e.as_str(), "zip") || eq_ignore_ascii_case(e.as_str(), "cbz"),
        None => false,
    }
}

/// Decides what the report compares.
pub fn choose_comparison(source: &MPath, facts: &DiskFacts) -> (c: Comparison)
    ensures
        c == comparison_for(source@, *facts),
{
    if facts.source_is_file {
        if has_zip_extension(source) {
            if facts.dest_is_dir {
                Comparison::ArchiveEntries
            } else {
                Comparison::ArchiveToFile
            }
        } else if facts.dest_is_file {
            Comparison::FileToFile
        } else if facts.dest_is_dir {
            Comparison::FileIntoDir
        } else {
            Comparison::FileToNothing
        }
    } else if facts.source_is_dir {
        if facts.dest_is_dir {
            Comparison::Directory
        } else {
            Comparison::DirectoryToFile
        }
    } else {
        Comparison::Nothing
    }
}

/// Plans the image quality analysis of a finished conversion: the report
/// location and the comparison to make.
pub fn run_quality(args: &QualityArgs, facts: &DiskFacts) -> (plan: QualityPlan)
    ensures
        plan.report_path@ == report_location(args.distorted@, facts.dest_is_dir),
        plan.comparison == comparison_for(args.original@, *facts),
{
    QualityPlan {
        report_path: report_path(&args.distorted, facts.dest_is_dir),
        comparison: choose_comparison(&args.original, facts),
    }
}

/// A text in lowercase, ASCII letters only.
pub open spec fn ascii_lowered(s: Seq<char>) -> Seq<char> {
    s.map_values(|c: char| ascii_lower_char(c))
}

proof fn lemma_lowered_case_equal(e: Seq<char>, word: Seq<char>)
    requires
        ascii_lowered(e) == word,
        forall|k: int| 0 <= k < word.len() ==> 'a' <= #[trigger] word[k] <= 'z',
    ensures
        ascii_case_equal(e, word),
{
    assert forall|k: int| 0 <= k < e.len() implies ascii_folded(#[trigger] e[k]) == ascii_folded(word[k]) by {
        assert(ascii_lowered(e)[k] == ascii_lower_char(e[k]));
    }
}

/// A source file whose extension is `zip` or `cbz`, in any ASCII case, is
/// compared entry by entry: the images inside it against their converted
/// files when the destination is a folder, and nothing otherwise; it is
/// never compared as one image.
pub proof fn law_archive_sources_are_compared_by_entry(source: PathView, facts: DiskFacts)
    requires
        facts.source_is_file,
        extension(source) matches Some(e) && (ascii_lowered(e) == "zip"@ || ascii_lowered(e) == "cbz"@),
    ensures
        comparison_for(source, facts) == if facts.dest_is_dir {
            Comparison::ArchiveEntries
        } else {
            Comparison::ArchiveToFile
        },
{
    reveal_strlit("zip");
    reveal_strlit("cbz");
    let e = extension(source)->0;
    if ascii_lowered(e) == "zip"@ {
        lemma_lowered_case_equal(e, "zip"@);
    } else {
        lemma_lowered_case_equal(e, "cbz"@);
    }
}

/// An image by its lowercase extension (a missing extension counts as the
/// lowercase of the empty text).
pub open spec fn counts_as_image(p: PathView) -> bool {
    image_extensions().contains(lower_ext_or_empty(p))
}

/// The converted counterpart of an archive entry: the entry's path under
/// the destination folder with the target extension; only for images.
pub open spec fn entry_counterpart(destination: PathView, entry: Seq<char>, format: Seq<char>) -> Option<
    PathView,
> {
    if counts_as_image(parse_text(entry)) {
        Some(with_extension(join(destination, parse_text(entry)), format))
    } else {
        None
    }
}

/// The converted counterpart of an archive entry, when the entry is an image.
pub fn archive_entry_counterpart(destination: &MPath, entry: &str, format: &str) -> (r: Option<MPath>)
    requires
        !format@.contains('/'),
    ensures
        r matches Some(p) ==> entry_counterpart(destination@, entry@, format@) == Some(p@),
        r is None ==> entry_counterpart(destination@, entry@, format@) is None,
{
    let p = MPath::parse(entry);
    let ext = lower_extension_or_empty(&p);
    if is_image_extension(ext.as_str()) {
        Some(destination.join(&p).with_extension(format))
    } else {
        None
    }
}

/// The converted counterpart of a single source file: the destination file
/// itself, or the source's name with the target extension inside the
/// destination folder.
pub open spec fn file_counterpart(source: PathView, destination: PathView, dest_is_file: bool, format: Seq<char>) -> PathView {
    if dest_is_file {
        destination
    } else {
        with_extension(join(destination, parse_text(file_name(source)->0)), format)
    }
}

/// The converted counterpart of a single source file.
pub fn single_file_counterpart(source: &MPath, destination: &MPath, dest_is_file: bool, format: &str) -> (r: MPath)
    requires
        !format@.contains('/'),
        !dest_is_file ==> file_name(source@) is Some,
    ensures
        r@ == file_counterpart(source@, destination@, dest_is_file, format@),
{
    if dest_is_file {
        destination.duplicate()
    } else {
        let name = match source.file_name() {
            Some(n) => n,
            None => {
                assert(false);
                owned("")
            },
        };
        destination.join(&MPath::parse(name.as_str())).with_extension(format)
    }
}

/// The converted counterpart of a file found under the source folder: its
/// position relative to the source, under the destination, with the target
/// extension; only for images. A file outside the source is an error.
pub open spec fn tree_counterpart(source_root: PathView, file: PathView, destination: PathView, format: Seq<char>) -> Result<
    Option<PathView>,
    ImageErrorView,
> {
    if !counts_as_image(file) {
        Ok(None)
    } else {
        match strip_prefix(file, source_root) {
            None => Err(ImageErrorView::Io(prefix_not_found())),
            Some(rel) => Ok(Some(with_extension(join(destination, rel), format))),
        }
    }
}

/// The converted counterpart of a file found under the source folder.
pub fn tree_file_counterpart(source_root: &MPath, file: &MPath, destination: &MPath, format: &str) -> (r: Result<
    Option<MPath>,
    ImageError,
>)
    requires
        !format@.contains('/'),
    ensures
        match r {
            Ok(Some(p)) => tree_counterpart(source_root@, file@, destination@, format@) == Ok::<
                Option<PathView>,
                ImageErrorView,
            >(Some(p@)),
            Ok(None) => tree_counterpart(source_root@, file@, destination@, format@) == Ok::<
                Option<PathView>,
                ImageErrorView,
            >(None),
            Err(e) => tree_counterpart(source_root@, file@, destination@, format@) == Err::<
                Option<PathView>,
                ImageErrorView,
            >(e@),
        },
{
    let ext = lower_extension_or_empty(file);
    if !is_image_extension(ext.as_str()) {
        return Ok(None);
    }
    match file.strip_prefix(source_root) {
        None => Err(ImageError::Io(owned("prefix not found"))),
        Some(rel) => Ok(Some(destination.join(&rel).with_extension(format))),
    }
}

/// Sum of the original sizes of report rows.
pub open spec fn total_original(rows: Seq<(u64, u64)>) -> int
    decreases rows.len(),
{
    if rows.len() == 0 {
        0
    } else {
        total_original(rows.drop_last()) + rows.last().0
    }
}

/// Sum of the final sizes of report rows.
pub open spec fn total_final(rows: Seq<(u64, u64)>) -> int
    decreases rows.len(),
{
    if rows.len() == 0 {
        0
    } else {
        total_final(rows.drop_last()) + rows.last().1
    }
}

proof fn lemma_totals_grow(rows: Seq<(u64, u64)>, i: int)
    requires
        0 <= i <= rows.len(),
    ensures
        0 <= total_original(rows.take(i)) <= total_original(rows),
        0 <= total_final(rows.take(i)) <= total_final(rows),
    decreases rows.len(),
{
    if rows.len() > 0 {
        if i == rows.len() {
            assert(rows.take(i) =~= rows);
            lemma_totals_grow(rows.drop_last(), i - 1);
            assert(rows.drop_last().take(i - 1) =~= rows.drop_last());
        } else {
            lemma_totals_grow(rows.drop_last(), i);
            assert(rows.drop_last().take(i) =~= rows.take(i));
        }
    }
}

/// The space a report records as saved: the summed original sizes minus the
/// summed final sizes, or zero when the converted files are larger.
pub fn space_saved(rows: &Vec<(u64, u64)>) -> (saved: u64)
    requires
        total_original(rows@) <= u64::MAX,
        total_final(rows@) <= u64::MAX,
    ensures
        saved == saturating_sub(total_original(rows@) as u64, total_final(rows@) as u64),
{
    let n = rows.len();
    let mut orig: u64 = 0;
    let mut fin: u64 = 0;
    let mut i: usize = 0;
    while i < n
        invariant
            n == rows@.len(),
            i <= n,
            total_original(rows@) <= u64::MAX,
            total_final(rows@) <= u64::MAX,
            orig == total_original(rows@.take(i as int)),
            fin == total_final(rows@.take(i as int)),
        decreases n - i,
    {
        proof {
            lemma_totals_grow(rows@, i + 1);
            assert(rows@.take(i + 1).drop_last() =~= rows@.take(i as int));
        }
        orig = orig + rows[i].0;
        fin = fin + rows[i].1;
        i = i + 1;
    }
    assert(rows@.take(n as int) =~= rows@);
    if orig >= fin {
        orig - fin
    } else {
        0
    }
}

} // verus!
