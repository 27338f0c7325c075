//! The workspace's separate image conversion tool: the tasks each scanned
//! file yields and the names shown while they run.
use vstd::prelude::*;
use vstd::string::*;
use vstd::utf8::*;

use crate::image::archive::is_listed;
use crate::image::convert::{
    archive_target, generate_archive_task, target_path, tasks_view, valid_format, KindView, Task, TaskType,
    TaskView,
};
use crate::kinds::{list_contains, lower_ext, lower_extension, names_view};
use crate::mf_core::{archive_extension_list, archive_extensions, image_extension_list, image_extensions};
use crate::paths::{parse_text, MPath, PathView};
use crate::text::owned;
use crate::walker::ArchiveEntry;

verus! {

/// The listing of an archive as the tool read it, if it could.
pub open spec fn listing_view(l: Option<Vec<ArchiveEntry>>) -> Option<Seq<ArchiveEntry>> {
    match l {
        Some(v) => Some(v@),
        None => None,
    }
}

/// The conversion tasks of an archive's entries: one for each file entry
/// with an image extension, in listing order.
pub open spec fn entry_tasks(
    archive: PathView,
    entries: Seq<ArchiveEntry>,
    source: PathView,
    dest: PathView,
    format: Seq<char>,
) -> Seq<TaskView>
    decreases entries.len(),
{
    if entries.len() == 0 {
        Seq::empty()
    } else {
        let rest = entry_tasks(archive, entries.drop_last(), source, dest, format);
        let e = entries.last();
        if e.is_file && is_listed(parse_text(e.name@), image_extensions()) {
            rest.push(
                TaskView {
                    src: archive,
                    dest: archive_target(archive, e.name@, source, dest, format),
                    kind: KindView::Archive(e.name@),
                },
            )
        } else {
            rest
        }
    }
}

/// The tasks a scanned file yields: an archive yields the tasks of its
/// image entries (none when it could not be read), an image yields one
/// conversion, anything else none.
pub open spec fn scanned_file_tasks(
    file: PathView,
    listing: Option<Seq<ArchiveEntry>>,
    source: PathView,
    dest: PathView,
    format: Seq<char>,
) -> Seq<TaskView> {
    match lower_ext(file) {
        Some(e) => if archive_extensions().contains(e) {
            match listing {
                Some(es) => entry_tasks(file, es, source, dest, format),
                None => Seq::empty(),
            }
        } else if image_extensions().contains(e) {
            seq![
                TaskView {
                    src: file,
                    dest: target_path(file, source, false, dest, Some(format)),
                    kind: KindView::File,
                },
            ]
        } else {
            Seq::empty()
        },
        None => Seq::empty(),
    }
}

/// The conversion tasks of an archive's image entries.
pub fn collect_archive_tasks(
    archive_path: &MPath,
    entries: &Vec<ArchiveEntry>,
    source_path: &MPath,
    dest_path: &MPath,
    format: &str,
) -> (tasks: Vec<Task>)
    requires
        valid_format(format@),
    ensures
        tasks_view(tasks@) == entry_tasks(archive_path@, entries@, source_path@, dest_path@, format@),
{
    let images = image_extension_list();
    let mut tasks: Vec<Task> = Vec::new();
    let n = entries.len();
    let mut i: usize = 0;
    while i < n
        invariant
            n == entries@.len(),
            i <= n,
            valid_format(format@),
            names_view(images@) == image_extensions(),
            tasks_view(tasks@) == entry_tasks(
                archive_path@,
                entries@.take(i as int),
                source_path@,
                dest_path@,
                format@,
            ),
        decreases n - i,
    {
        let e = &entries[i];
        assert(entries@.take(i + 1).drop_last() =~= entries@.take(i as int));
        if e.is_file {
            let p = MPath::parse(e.name.as_str());
            let wanted = match lower_extension(&p) {
                Some(x) => list_contains(&images, x.as_str()),
                None => false,
            };
            if wanted {
                let ghost before = tasks@;
                tasks.push(generate_archive_task(archive_path, e.name.as_str(), source_path, dest_path, format));
                assert(tasks_view(tasks@) =~= tasks_view(before).push(tasks@.last()@));
            }
        }
        i = i + 1;
    }
    assert(entries@.take(n as int) =~= entries@);
    tasks
}

/// The tasks a scanned file yields, given the listing of the file when it
/// is an archive that could be read.
pub fn file_tasks(
    file: &MPath,
    listing: &Option<Vec<ArchiveEntry>>,
    source_path: &MPath,
    dest_path: &MPath,
    format: &str,
) -> (tasks: Vec<Task>)
    requires
        valid_format(format@),
    ensures
        tasks_view(tasks@) == scanned_file_tasks(file@, listing_view(*listing), source_path@, dest_path@, format@),
{
    let ext = match lower_extension(file) {
        Some(e) => e,
        None => {
            let v: Vec<Task> = Vec::new();
            assert(tasks_view(v@) =~= Seq::<TaskView>::empty());
            return v;
        },
    };
    if list_contains(&archive_extension_list(), ext.as_str()) {
        match listing {
            Some(es) => collect_archive_tasks(file, es, source_path, dest_path, format),
            None => {
                let v: Vec<Task> = Vec::new();
                assert(tasks_view(v@) =~= Seq::<TaskView>::empty());
                v
            },
        }
    } else if list_contains(&image_extension_list(), ext.as_str()) {
        let rel = match file.strip_prefix(source_path) {
            Some(r) => r,
            None => file.duplicate(),
        };
        let target = dest_path.join(&rel).with_extension(format);
        let mut v: Vec<Task> = Vec::new();
        v.push(Task { src_path: file.duplicate(), dest_path: target, task_type: TaskType::File });
        assert(tasks_view(v@) =~= scanned_file_tasks(file@, listing_view(*listing), source_path@, dest_path@, format@));
        v
    } else {
        let v: Vec<Task> = Vec::new();
        assert(tasks_view(v@) =~= Seq::<TaskView>::empty());
        v
    }
}

/// The text of the last `n` bytes of a UTF-8 encoded text.
pub open spec fn byte_suffix(bytes: Seq<u8>, n: int) -> Seq<char> {
    decode_utf8(bytes.subrange(bytes.len() - n, bytes.len() as int))
}

/// The name shown while a task runs: names longer than 30 bytes keep their
/// last 27 bytes behind `...`. The cut must fall on a character boundary.
pub fn short_label(name: &str) -> (r: String)
    requires
        name.spec_bytes().len() <= usize::MAX,
        name.spec_bytes().len() > 30 ==> is_char_boundary(name.spec_bytes(), name.spec_bytes().len() - 27),
    ensures
        name.spec_bytes().len() <= 30 ==> r@ == name@,
        name.spec_bytes().len() > 30 ==> r@ == "..."@ + byte_suffix(name.spec_bytes(), 27),
{
    let len = name.len();
    if len > 30 {
        let (_head, tail) = name.split_at(len - 27);
        proof {
            encode_utf8_decode_utf8(tail@);
            assert(tail.spec_bytes() == encode_utf8(tail@));
            assert(byte_suffix(name.spec_bytes(), 27) == tail@);
        }
        let mut r = owned("...");
        r.append(tail);
        r
    } else {
        owned(name)
    }
}

} // verus!
