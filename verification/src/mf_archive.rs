//! The workspace's separate CBZ archiving tool: which folders it archives,
//! which files go in, and the names the pages get inside the archive.
use vstd::prelude::*;

use crate::image::archive::{
    archivable_files, archive_tasks_view, find_folders, has_images, natural_sorted, naturally_ordered,
    opt_path, search_folders, sorted_archivable, ArchiveTask, ArchiveTaskView,
};
use crate::image::{ImageError, ImageErrorView};
use crate::kinds::names_view;
use crate::mf_core::{image_extension_list, image_extensions};
use crate::paths::{file_name, last_index_of, lemma_last_index_of, name_extension, MPath, PathView};
use crate::text::{is_ascii_digit, lemma_zero_padded_value, owned, zero_padded, zero_padded_string};
use crate::walker::FsNode;

verus! {

/// Every folder holding images (by `exts`) that a search can reach has a
/// file name, which its archive is named after.
pub open spec fn image_folders_named(node: FsNode, exts: Seq<Seq<char>>) -> bool
    decreases node, 1nat,
{
    match node {
        FsNode::Dir { path, children, .. } => (has_images(children@, exts) ==> file_name(path@) is Some)
            && folders_named_in(children@, exts),
        _ => true,
    }
}

/// Every entry satisfies `image_folders_named`.
pub open spec fn folders_named_in(entries: Seq<FsNode>, exts: Seq<Seq<char>>) -> bool
    decreases entries, 0nat,
{
    if entries.len() == 0 {
        true
    } else {
        folders_named_in(entries.subrange(0, entries.len() - 1), exts) && image_folders_named(
            entries[entries.len() - 1],
            exts,
        )
    }
}

/// Finds the folders to archive under `current`, appending their tasks: a
/// folder with image files yields a task, then its subfolders are searched
/// when searching recursively.
pub fn find_image_folders(
    current: &FsNode,
    source_root: &MPath,
    dest_root: &Option<MPath>,
    recursive: bool,
    tasks: &mut Vec<ArchiveTask>,
) -> (r: Result<(), ImageError>)
    requires
        image_folders_named(*current, image_extensions()),
    ensures
        find_folders(
            *current,
            image_extensions(),
            source_root@,
            opt_path(*dest_root),
            recursive,
            archive_tasks_view(old(tasks)@),
        ) == match r {
            Ok(_) => Ok::<Seq<ArchiveTaskView>, ImageErrorView>(archive_tasks_view(final(tasks)@)),
            Err(e) => Err::<Seq<ArchiveTaskView>, ImageErrorView>(e@),
        },
{
    search_folders(current, &image_extension_list(), source_root, dest_root, recursive, tasks, &|_p: &MPath| {})
}

/// The action a dry run lists for each folder.
pub fn dry_run_action(cleanup: bool) -> (a: &'static str)
    ensures
        a@ == if cleanup {
            "ARCHIVE & DELETE"@
        } else {
            "ARCHIVE"@
        },
{
    if cleanup {
        "ARCHIVE & DELETE"
    } else {
        "ARCHIVE"
    }
}

/// The files of a folder that go into its archive (images and `xml`
/// sidecars), naturally sorted; `None` when there are none.
pub fn cbz_files(entries: &Vec<(String, bool)>) -> (r: Option<Vec<String>>)
    ensures
        match r {
            Some(names) => archivable_files(entries@, image_extensions()).len() > 0 && names@.map_values(
                |s: String| s@,
            ) == natural_sorted(archivable_files(entries@, image_extensions())) && naturally_ordered(
                names@.map_values(|s: String| s@),
            ),
            None => archivable_files(entries@, image_extensions()).len() == 0,
        },
{
    let files = sorted_archivable(entries, &image_extension_list());
    if files.len() == 0 {
        None
    } else {
        Some(files)
    }
}

/// The name the `i`-th of `count` files gets inside the archive: the first
/// is the cover, the last the back, the others numbered pages; each keeps
/// its extension.
pub open spec fn entry_name(i: nat, count: nat, ext: Seq<char>) -> Seq<char> {
    if i == 0 {
        "000_cover."@ + ext
    } else if i == count - 1 {
        "999_back."@ + ext
    } else {
        "page_"@ + zero_padded(i, 3) + "."@ + ext
    }
}

/// The extension a file keeps inside the archive (none when it has none).
pub open spec fn kept_extension(name: Seq<char>) -> Seq<char> {
    match name_extension(name) {
        Some(e) => e,
        None => Seq::empty(),
    }
}

/// The name the `i`-th of `count` files, called `file_name`, gets inside
/// the archive.
pub fn cbz_entry_name(i: usize, count: usize, file_name: &str) -> (r: String)
    ensures
        r@ == entry_name(i as nat, count as nat, kept_extension(file_name@)),
{
    let ext = match crate::paths::extension_of(file_name) {
        Some(e) => e,
        None => {
            proof {
                reveal_strlit("");
            }
            owned("")
        },
    };
    let mut r = if i == 0 {
        owned("000_cover.")
    } else if count > 0 && i == count - 1 {
        owned("999_back.")
    } else {
        let mut p = owned("page_");
        p.append(zero_padded_string(i as u64, 3).as_str());
        p.append(".");
        p
    };
    r.append(ext.as_str());
    r
}

/// The names of all files inside the archive, in order.
pub fn cbz_entry_names(files: &Vec<String>) -> (names: Vec<String>)
    ensures
        names@.len() == files@.len(),
        forall|i: int|
            0 <= i < files@.len() ==> (#[trigger] names@[i])@ == entry_name(
                i as nat,
                files@.len(),
                kept_extension(files@[i]@),
            ),
{
    let n = files.len();
    let mut names: Vec<String> = Vec::new();
    let mut i: usize = 0;
    while i < n
        invariant
            n == files@.len(),
            i <= n,
            names@.len() == i,
            forall|k: int|
                0 <= k < i ==> (#[trigger] names@[k])@ == entry_name(k as nat, n as nat, kept_extension(files@[k]@)),
        decreases n - i,
    {
        names.push(cbz_entry_name(i, n, files[i].as_str()));
        i = i + 1;
    }
    names
}

/// Whether the folder is deleted once its archive is written and checked.
pub fn removes_source(cleanup: bool) -> (b: bool)
    ensures
        b == cleanup,
{
    cleanup
}

/// No two files of an archive get the same name inside it: the cover, the
/// back and the numbered pages all differ, whatever extensions the files
/// keep.
pub proof fn law_entry_names_distinct(count: nat, i: nat, j: nat, ei: Seq<char>, ej: Seq<char>)
    requires
        i < j < count,
        !ei.contains('.'),
        !ej.contains('.'),
    ensures
        entry_name(i, count, ei) != entry_name(j, count, ej),
{
    reveal_strlit("000_cover.");
    reveal_strlit("999_back.");
    reveal_strlit("page_");
    reveal_strlit(".");
    let a = entry_name(i, count, ei);
    let b = entry_name(j, count, ej);
    if i == 0 {
        assert(a[0] == '0');
        if j == count - 1 {
            assert(b[0] == '9');
        } else {
            assert(b[0] == 'p');
        }
    } else if j == count - 1 {
        assert(a[0] == 'p');
        assert(b[0] == '9');
    } else {
        let zi = zero_padded(i, 3);
        let zj = zero_padded(j, 3);
        lemma_zero_padded_value(i, 3);
        lemma_zero_padded_value(j, 3);
        if a == b {
            assert(a =~= "page_"@ + zi + "."@ + ei);
            assert(b =~= "page_"@ + zj + "."@ + ej);
            if zi.len() < zj.len() {
                assert(a[5 + zi.len() as int] == '.');
                assert(b[5 + zi.len() as int] == zj[zi.len() as int]);
                assert(is_ascii_digit(zj[zi.len() as int]));
            } else if zj.len() < zi.len() {
                assert(b[5 + zj.len() as int] == '.');
                assert(a[5 + zj.len() as int] == zi[zj.len() as int]);
                assert(is_ascii_digit(zi[zj.len() as int]));
            } else {
                assert(zi =~= a.subrange(5, 5 + zi.len() as int));
                assert(zj =~= b.subrange(5, 5 + zj.len() as int));
            }
        }
    }
}

/// The extension a file keeps holds no dot.
proof fn lemma_kept_extension_has_no_dot(name: Seq<char>)
    ensures
        !kept_extension(name).contains('.'),
{
    lemma_last_index_of(name, '.');
    let e = kept_extension(name);
    if e.contains('.') {
        let k = choose|k: int| 0 <= k < e.len() && e[k] == '.';
        let i = last_index_of(name, '.');
        assert(name[i + 1 + k] == e[k]);
    }
}

/// The files of one archive all get different names inside it.
pub proof fn law_archive_entry_names_distinct(files: Seq<Seq<char>>, i: nat, j: nat)
    requires
        i < j < files.len(),
    ensures
        entry_name(i, files.len(), kept_extension(files[i as int])) != entry_name(
            j,
            files.len(),
            kept_extension(files[j as int]),
        ),
{
    lemma_kept_extension_has_no_dot(files[i as int]);
    lemma_kept_extension_has_no_dot(files[j as int]);
    law_entry_names_distinct(files.len(), i, j, kept_extension(files[i as int]), kept_extension(files[j as int]));
}

} // verus!
