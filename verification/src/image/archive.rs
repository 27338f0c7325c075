//! Planning of CBZ archive creation: which folders become archives, where
//! the archives go, which files they hold and in what order.
use vstd::prelude::*;

use crate::image::{ImageError, ImageErrorView};
use crate::kinds::{image_extension_list, image_extensions, is_image_extension, list_contains, lower_ext, lower_extension, names_view};
use crate::natural::{natural_compare, natural_order};
use crate::paths::{file_name, join, parent, parse_text, strip_prefix, MPath, PathView};
use crate::text::{owned, str_eq, trim, trimmed};
use crate::walker::{node_path, path_of, FsNode};

verus! {

/// Represents a single directory to be archived into a CBZ file.
pub struct ArchiveTask {
    /// Path to the source directory containing images.
    pub src_dir: MPath,
    /// Target path for the generated .cbz file.
    pub dest_cbz: MPath,
}

/// The abstract value of an `ArchiveTask`.
pub struct ArchiveTaskView {
    pub src_dir: PathView,
    pub dest_cbz: PathView,
}

impl View for ArchiveTask {
    type V = ArchiveTaskView;

    open spec fn view(&self) -> ArchiveTaskView {
        ArchiveTaskView { src_dir: self.src_dir@, dest_cbz: self.dest_cbz@ }
    }
}

/// The views of a list of archive tasks.
pub open spec fn archive_tasks_view(ts: Seq<ArchiveTask>) -> Seq<ArchiveTaskView> {
    ts.map_values(|t: ArchiveTask| t@)
}

/// The view of an optional path.
pub open spec fn opt_path(p: Option<MPath>) -> Option<PathView> {
    match p {
        Some(q) => Some(q@),
        None => None,
    }
}

/// A path whose lowercase extension is in `exts`.
pub open spec fn is_listed(p: PathView, exts: Seq<Seq<char>>) -> bool {
    lower_ext(p) matches Some(e) && exts.contains(e)
}

/// A directory's entries include a file whose extension is in `exts`.
pub open spec fn has_images(entries: Seq<FsNode>, exts: Seq<Seq<char>>) -> bool {
    exists|i: int| 0 <= i < entries.len() && (#[trigger] entries[i]) is File && is_listed(
        node_path(entries[i]),
        exts,
    )
}

/// The message of the error that stripping a non-prefix gives.
pub open spec fn prefix_not_found() -> Seq<char> {
    "prefix not found"@
}

/// The message of the error that reading a non-directory gives.
pub open spec fn not_a_directory() -> Seq<char> {
    "Not a directory (os error 20)"@
}

/// Where the archive of `folder` goes: next to the folder, or, with a
/// destination root, under it at the folder's relative position; named after
/// the folder with `.cbz` appended.
pub open spec fn cbz_target(folder: PathView, source_root: PathView, dest_root: Option<PathView>) -> Result<
    PathView,
    ImageErrorView,
> {
    match strip_prefix(folder, source_root) {
        None => Err(ImageErrorView::Io(prefix_not_found())),
        Some(rel) => {
            let dest_folder = match dest_root {
                Some(dr) => join(
                    dr,
                    match parent(rel) {
                        Some(p) => p,
                        None => parse_text(Seq::empty()),
                    },
                ),
                None => match parent(folder) {
                    Some(p) => p,
                    None => parse_text(Seq::empty()),
                },
            };
            match file_name(folder) {
                None => Err(ImageErrorView::InvalidFilename(folder)),
                Some(n) => Ok(join(dest_folder, parse_text(n + ".cbz"@))),
            }
        },
    }
}

/// The archive tasks found from `node` on, appended to `acc`: a folder with
/// image files yields a task, then its subfolders are searched in order
/// when searching recursively. The first error ends the search.
pub open spec fn find_folders(
    node: FsNode,
    exts: Seq<Seq<char>>,
    source_root: PathView,
    dest_root: Option<PathView>,
    recursive: bool,
    acc: Seq<ArchiveTaskView>,
) -> Result<Seq<ArchiveTaskView>, ImageErrorView>
    decreases node, 1nat,
{
    match node {
        FsNode::Dir { path, error, children } => match error {
            Some(e) => Err(ImageErrorView::Io(e@)),
            None => {
                let here = if has_images(children@, exts) {
                    match cbz_target(path@, source_root, dest_root) {
                        Err(e) => Err(e),
                        Ok(t) => Ok(acc.push(ArchiveTaskView { src_dir: path@, dest_cbz: t })),
                    }
                } else {
                    Ok(acc)
                };
                match here {
                    Err(e) => Err(e),
                    Ok(a) => find_in(children@, exts, source_root, dest_root, recursive, a),
                }
            },
        },
        _ => Err(ImageErrorView::Io(not_a_directory())),
    }
}

/// The archive tasks found in the subfolders among `entries`, in order,
/// appended to `acc`; only when searching recursively.
pub open spec fn find_in(
    entries: Seq<FsNode>,
    exts: Seq<Seq<char>>,
    source_root: PathView,
    dest_root: Option<PathView>,
    recursive: bool,
    acc: Seq<ArchiveTaskView>,
) -> Result<Seq<ArchiveTaskView>, ImageErrorView>
    decreases entries, 0nat,
{
    if entries.len() == 0 {
        Ok(acc)
    } else {
        match find_in(entries.subrange(0, entries.len() - 1), exts, source_root, dest_root, recursive, acc) {
            Err(e) => Err(e),
            Ok(a) => if recursive && entries[entries.len() - 1] is Dir {
                find_folders(entries[entries.len() - 1], exts, source_root, dest_root, recursive, a)
            } else {
                Ok(a)
            },
        }
    }
}

/// Once the search of a prefix of the entries fails, the search of all of
/// them fails with the same error.
proof fn lemma_find_in_error_persists(
    entries: Seq<FsNode>,
    exts: Seq<Seq<char>>,
    k: int,
    source_root: PathView,
    dest_root: Option<PathView>,
    recursive: bool,
    acc: Seq<ArchiveTaskView>,
)
    requires
        0 <= k <= entries.len(),
        find_in(entries.take(k), exts, source_root, dest_root, recursive, acc) is Err,
    ensures
        find_in(entries, exts, source_root, dest_root, recursive, acc) == find_in(
            entries.take(k),
            exts,
            source_root,
            dest_root,
            recursive,
            acc,
        ),
    decreases entries.len(),
{
    if k == entries.len() {
        assert(entries.take(k) =~= entries);
    } else {
        let shorter = entries.subrange(0, entries.len() - 1);
        assert(shorter.take(k) =~= entries.take(k));
        lemma_find_in_error_persists(shorter, exts, k, source_root, dest_root, recursive, acc);
    }
}

/// `a` is a leading part of `b`.
pub open spec fn extends(a: Seq<ArchiveTaskView>, b: Seq<ArchiveTaskView>) -> bool {
    a.len() <= b.len() && b.take(a.len() as int) == a
}

/// The node reached from `node` by following `route`: each step enters the
/// subfolder at that position among the current folder's entries.
pub open spec fn descend(node: FsNode, route: Seq<int>) -> Option<FsNode>
    decreases route.len(),
{
    if route.len() == 0 {
        Some(node)
    } else {
        match node {
            FsNode::Dir { children, .. } => if 0 <= route[0] < children@.len() && children@[route[0]] is Dir {
                descend(children@[route[0]], route.drop_first())
            } else {
                None
            },
            _ => None,
        }
    }
}

proof fn lemma_extends_trans(a: Seq<ArchiveTaskView>, b: Seq<ArchiveTaskView>, c: Seq<ArchiveTaskView>)
    requires
        extends(a, b),
        extends(b, c),
    ensures
        extends(a, c),
{
    assert(c.take(a.len() as int) =~= c.take(b.len() as int).take(a.len() as int));
}

/// A search only appends to the tasks it starts from.
proof fn lemma_find_folders_extends(
    node: FsNode,
    exts: Seq<Seq<char>>,
    source_root: PathView,
    dest_root: Option<PathView>,
    recursive: bool,
    acc: Seq<ArchiveTaskView>,
)
    ensures
        find_folders(node, exts, source_root, dest_root, recursive, acc) matches Ok(r) ==> extends(acc, r),
    decreases node, 1nat,
{
    match node {
        FsNode::Dir { path, error, children } => {
            if error is None {
                if has_images(children@, exts) {
                    match cbz_target(path@, source_root, dest_root) {
                        Ok(t) => {
                            let a = acc.push(ArchiveTaskView { src_dir: path@, dest_cbz: t });
                            lemma_find_in_extends(children@, exts, source_root, dest_root, recursive, a);
                            assert(extends(acc, a)) by {
                                assert(a.take(acc.len() as int) =~= acc);
                            }
                            if find_in(children@, exts, source_root, dest_root, recursive, a) is Ok {
                                lemma_extends_trans(
                                    acc,
                                    a,
                                    find_in(children@, exts, source_root, dest_root, recursive, a)->Ok_0,
                                );
                            }
                        },
                        Err(_) => {},
                    }
                } else {
                    lemma_find_in_extends(children@, exts, source_root, dest_root, recursive, acc);
                }
            }
        },
        _ => {},
    }
}

/// A search of entries only appends to the tasks it starts from.
proof fn lemma_find_in_extends(
    entries: Seq<FsNode>,
    exts: Seq<Seq<char>>,
    source_root: PathView,
    dest_root: Option<PathView>,
    recursive: bool,
    acc: Seq<ArchiveTaskView>,
)
    ensures
        find_in(entries, exts, source_root, dest_root, recursive, acc) matches Ok(r) ==> extends(acc, r),
    decreases entries, 0nat,
{
    if entries.len() == 0 {
        assert(acc.take(acc.len() as int) =~= acc);
    } else {
        let init = entries.subrange(0, entries.len() - 1);
        lemma_find_in_extends(init, exts, source_root, dest_root, recursive, acc);
        match find_in(init, exts, source_root, dest_root, recursive, acc) {
            Ok(a) => {
                if recursive && entries[entries.len() - 1] is Dir {
                    lemma_find_folders_extends(entries[entries.len() - 1], exts, source_root, dest_root, recursive, a);
                    if find_folders(entries[entries.len() - 1], exts, source_root, dest_root, recursive, a) is Ok {
                        lemma_extends_trans(
                            acc,
                            a,
                            find_folders(entries[entries.len() - 1], exts, source_root, dest_root, recursive, a)->Ok_0,
                        );
                    }
                }
            },
            Err(_) => {},
        }
    }
}

/// In a successful recursive search of entries, each subfolder among them
/// was searched, from some tasks on, and what that search found is a
/// leading part of the final result.
proof fn lemma_subfolder_searched(
    entries: Seq<FsNode>,
    i: int,
    exts: Seq<Seq<char>>,
    source_root: PathView,
    dest_root: Option<PathView>,
    acc: Seq<ArchiveTaskView>,
) -> (a: Seq<ArchiveTaskView>)
    requires
        find_in(entries, exts, source_root, dest_root, true, acc) is Ok,
        0 <= i < entries.len(),
        entries[i] is Dir,
    ensures
        find_folders(entries[i], exts, source_root, dest_root, true, a) matches Ok(r) && extends(
            r,
            find_in(entries, exts, source_root, dest_root, true, acc)->Ok_0,
        ),
    decreases entries.len(),
{
    let n = entries.len();
    let init = entries.subrange(0, n - 1);
    let a1 = find_in(init, exts, source_root, dest_root, true, acc)->Ok_0;
    let r = find_in(entries, exts, source_root, dest_root, true, acc)->Ok_0;
    if i == n - 1 {
        assert(r.take(r.len() as int) =~= r);
        a1
    } else {
        assert(init[i] == entries[i]);
        let a = lemma_subfolder_searched(init, i, exts, source_root, dest_root, acc);
        let r1 = find_folders(entries[i], exts, source_root, dest_root, true, a)->Ok_0;
        if entries[n - 1] is Dir {
            lemma_find_folders_extends(entries[n - 1], exts, source_root, dest_root, true, a1);
        } else {
            assert(r.take(r.len() as int) =~= r);
        }
        lemma_extends_trans(r1, a1, r);
        a
    }
}

/// A folder whose entries include an image file.
pub open spec fn image_folder(d: Option<FsNode>, exts: Seq<Seq<char>>) -> bool {
    d matches Some(FsNode::Dir { children, .. }) && has_images(children@, exts)
}

/// The task that archives folder `d`.
pub open spec fn folder_task(d: FsNode, source_root: PathView, dest_root: Option<PathView>) -> ArchiveTaskView {
    ArchiveTaskView {
        src_dir: node_path(d),
        dest_cbz: cbz_target(node_path(d), source_root, dest_root)->Ok_0,
    }
}

/// The tasks of a recursive search that succeeded.
pub open spec fn recursive_result(
    node: FsNode,
    exts: Seq<Seq<char>>,
    source_root: PathView,
    dest_root: Option<PathView>,
    acc: Seq<ArchiveTaskView>,
) -> Seq<ArchiveTaskView> {
    find_folders(node, exts, source_root, dest_root, true, acc)->Ok_0
}

/// A recursive search that succeeds archives every folder it can reach that
/// holds image files, whatever the folders above it hold: the result has a
/// task for that folder, with the archive at the folder's target.
pub proof fn law_recursive_search_archives_every_image_folder(
    node: FsNode,
    exts: Seq<Seq<char>>,
    source_root: PathView,
    dest_root: Option<PathView>,
    acc: Seq<ArchiveTaskView>,
    route: Seq<int>,
)
    requires
        find_folders(node, exts, source_root, dest_root, true, acc) is Ok,
        image_folder(descend(node, route), exts),
    ensures
        cbz_target(node_path(descend(node, route)->0), source_root, dest_root) is Ok,
        recursive_result(node, exts, source_root, dest_root, acc).contains(
            folder_task(descend(node, route)->0, source_root, dest_root),
        ),
    decreases route.len(),
{
    let r = find_folders(node, exts, source_root, dest_root, true, acc)->Ok_0;
    match node {
        FsNode::Dir { path, error, children } => {
            let here = if has_images(children@, exts) {
                match cbz_target(path@, source_root, dest_root) {
                    Err(e) => Err(e),
                    Ok(t) => Ok(acc.push(ArchiveTaskView { src_dir: path@, dest_cbz: t })),
                }
            } else {
                Ok(acc)
            };
            let a0 = here->Ok_0;
            if route.len() == 0 {
                let t = cbz_target(path@, source_root, dest_root)->Ok_0;
                lemma_find_in_extends(children@, exts, source_root, dest_root, true, a0);
                assert(r.take(a0.len() as int)[acc.len() as int] == a0[acc.len() as int]);
                assert(r[acc.len() as int] == ArchiveTaskView { src_dir: path@, dest_cbz: t });
                assert(r[acc.len() as int] == folder_task(node, source_root, dest_root));
            } else {
                let c = children@[route[0]];
                let a = lemma_subfolder_searched(children@, route[0], exts, source_root, dest_root, a0);
                let r1 = find_folders(c, exts, source_root, dest_root, true, a)->Ok_0;
                law_recursive_search_archives_every_image_folder(c, exts, source_root, dest_root, a, route.drop_first());
                let k = choose|k: int| 0 <= k < r1.len() && r1[k] == folder_task(
                    descend(c, route.drop_first())->0,
                    source_root,
                    dest_root,
                );
                assert(r.take(r1.len() as int)[k] == r1[k]);
                assert(r[k] == r1[k]);
            }
        },
        _ => {},
    }
}

/// Whether a directory's entries include an image file.
fn entries_have_images(children: &Vec<FsNode>, exts: &Vec<&str>) -> (b: bool)
    ensures
        b == has_images(children@, names_view(exts@)),
{
    let n = children.len();
    let mut i: usize = 0;
    while i < n
        invariant
            n == children@.len(),
            i <= n,
            forall|k: int| 0 <= k < i ==> !((#[trigger] children@[k]) is File && is_listed(
                node_path(children@[k]),
                names_view(exts@),
            )),
        decreases n - i,
    {
        match &children[i] {
            FsNode::File { path, .. } => {
                let ext = lower_extension(path);
                match ext {
                    Some(e) => {
                        if list_contains(exts, e.as_str()) {
                            return true;
                        }
                    },
                    None => {},
                }
            },
            _ => {},
        }
        i = i + 1;
    }
    false
}

/// Computes where the archive of `folder` goes.
pub fn cbz_destination(folder: &MPath, source_root: &MPath, dest_root: &Option<MPath>) -> (r: Result<
    MPath,
    ImageError,
>)
    ensures
        match r {
            Ok(p) => cbz_target(folder@, source_root@, opt_path(*dest_root)) == Ok::<
                PathView,
                ImageErrorView,
            >(p@),
            Err(e) => cbz_target(folder@, source_root@, opt_path(*dest_root)) == Err::<
                PathView,
                ImageErrorView,
            >(e@),
        },
{
    let rel = match folder.strip_prefix(source_root) {
        Some(r) => r,
        None => {
            return Err(ImageError::Io(owned("prefix not found")));
        },
    };
    proof {
        reveal_strlit("");
    }
    let dest_folder = match dest_root {
        Some(dr) => {
            let up = match rel.parent() {
                Some(p) => p,
                None => MPath::parse(""),
            };
            dr.join(&up)
        },
        None => match folder.parent() {
            Some(p) => p,
            None => MPath::parse(""),
        },
    };
    let name = match folder.file_name() {
        Some(n) => n,
        None => {
            return Err(ImageError::InvalidFilename(folder.duplicate()));
        },
    };
    let mut cbz_name = name;
    cbz_name.append(".cbz");
    Ok(dest_folder.join(&MPath::parse(cbz_name.as_str())))
}

/// Recursively traverses directories to identify folders holding files
/// whose extension is in `exts`, calling `callback` on every folder visited.
pub(crate) fn search_folders<F: Fn(&MPath)>(
    node: &FsNode,
    exts: &Vec<&str>,
    source_root: &MPath,
    dest_root: &Option<MPath>,
    recursive: bool,
    tasks: &mut Vec<ArchiveTask>,
    callback: &F,
) -> (r: Result<(), ImageError>)
    requires
        forall|p: &MPath| call_requires(*callback, (p,)),
    ensures
        find_folders(
            *node,
            names_view(exts@),
            source_root@,
            opt_path(*dest_root),
            recursive,
            archive_tasks_view(old(tasks)@),
        ) == match r {
            Ok(_) => Ok::<Seq<ArchiveTaskView>, ImageErrorView>(archive_tasks_view(final(tasks)@)),
            Err(e) => Err::<Seq<ArchiveTaskView>, ImageErrorView>(e@),
        },
    decreases node,
{
    callback(path_of(node));
    match node {
        FsNode::Dir { path, error, children } => {
            match error {
                Some(e) => {
                    return Err(ImageError::Io(e.clone()));
                },
                None => {},
            }
            if entries_have_images(children, exts) {
                let dest_cbz = cbz_destination(path, source_root, dest_root)?;
                let ghost before = tasks@;
                tasks.push(ArchiveTask { src_dir: path.duplicate(), dest_cbz });
                assert(archive_tasks_view(tasks@) =~= archive_tasks_view(before).push(
                    ArchiveTaskView { src_dir: path@, dest_cbz: tasks@.last().dest_cbz@ },
                ));
            }
            let ghost start = archive_tasks_view(tasks@);
            let n = children.len();
            let mut i: usize = 0;
            while i < n
                invariant
                    n == children@.len(),
                    i <= n,
                    *node == (FsNode::Dir { path: *path, error: *error, children: *children }),
                    forall|p: &MPath| call_requires(*callback, (p,)),
                    find_folders(
                        *node,
                        names_view(exts@),
                        source_root@,
                        opt_path(*dest_root),
                        recursive,
                        archive_tasks_view(old(tasks)@),
                    ) == find_in(children@, names_view(exts@), source_root@, opt_path(*dest_root), recursive, start),
                    find_in(
                        children@.subrange(0, i as int),
                        names_view(exts@),
                        source_root@,
                        opt_path(*dest_root),
                        recursive,
                        start,
                    ) == Ok::<Seq<ArchiveTaskView>, ImageErrorView>(archive_tasks_view(tasks@)),
                decreases n - i,
            {
                let ghost prefix = children@.subrange(0, i + 1);
                assert(prefix.subrange(0, prefix.len() - 1) =~= children@.subrange(0, i as int));
                assert(prefix[prefix.len() - 1] == children@[i as int]);
                let child = &children[i];
                if recursive {
                    match child {
                        FsNode::Dir { .. } => {
                            proof {
                                assert(decreases_to!(*node => node->children));
                                assert(decreases_to!(node->children => node->children@));
                                assert(0 <= i < children@.len());
                                assert(decreases_to!(node->children@ => node->children@[i as int]));
                            }
                            let ghost before = archive_tasks_view(tasks@);
                            match search_folders(
                                child,
                                exts,
                                source_root,
                                dest_root,
                                recursive,
                                tasks,
                                callback,
                            ) {
                                Ok(()) => {},
                                Err(e) => {
                                    proof {
                                        assert(find_folders(
                                            children@[i as int],
                                            names_view(exts@),
                                            source_root@,
                                            opt_path(*dest_root),
                                            recursive,
                                            before,
                                        ) == Err::<Seq<ArchiveTaskView>, ImageErrorView>(e@));
                                        assert(find_in(
                                            prefix,
                                            names_view(exts@),
                                            source_root@,
                                            opt_path(*dest_root),
                                            recursive,
                                            start,
                                        ) == Err::<Seq<ArchiveTaskView>, ImageErrorView>(e@));
                                        assert(prefix =~= children@.take(i + 1));
                                        lemma_find_in_error_persists(
                                            children@,
                                            names_view(exts@),
                                            i + 1,
                                            source_root@,
                                            opt_path(*dest_root),
                                            recursive,
                                            start,
                                        );
                                    }
                                    return Err(e);
                                },
                            }
                        },
                        _ => {},
                    }
                }
                i = i + 1;
            }
            assert(children@.subrange(0, n as int) =~= children@);
            Ok(())
        },
        _ => Err(ImageError::Io(owned("Not a directory (os error 20)"))),
    }
}

/// Recursively traverses directories to identify folders with images,
/// calling `callback` on every folder visited.
pub fn find_image_folders<F: Fn(&MPath)>(
    node: &FsNode,
    source_root: &MPath,
    dest_root: &Option<MPath>,
    recursive: bool,
    tasks: &mut Vec<ArchiveTask>,
    callback: &F,
) -> (r: Result<(), ImageError>)
    requires
        forall|p: &MPath| call_requires(*callback, (p,)),
    ensures
        find_folders(
            *node,
            image_extensions(),
            source_root@,
            opt_path(*dest_root),
            recursive,
            archive_tasks_view(old(tasks)@),
        ) == match r {
            Ok(_) => Ok::<Seq<ArchiveTaskView>, ImageErrorView>(archive_tasks_view(final(tasks)@)),
            Err(e) => Err::<Seq<ArchiveTaskView>, ImageErrorView>(e@),
        },
{
    search_folders(node, &image_extension_list(), source_root, dest_root, recursive, tasks, callback)
}

/// Collects archive tasks by scanning for folders containing images under
/// `root`, calling `callback` on every folder visited.
pub fn collect_archive_tasks<F: Fn(&MPath)>(
    root: &FsNode,
    dest_root: &Option<MPath>,
    recursive: bool,
    callback: F,
) -> (r: Result<Vec<ArchiveTask>, ImageError>)
    requires
        forall|p: &MPath| call_requires(callback, (p,)),
    ensures
        find_folders(*root, image_extensions(), node_path(*root), opt_path(*dest_root), recursive, Seq::empty())
            == match r {
            Ok(ts) => Ok::<Seq<ArchiveTaskView>, ImageErrorView>(archive_tasks_view(ts@)),
            Err(e) => Err::<Seq<ArchiveTaskView>, ImageErrorView>(e@),
        },
{
    let mut tasks: Vec<ArchiveTask> = Vec::new();
    let source_root = path_of(root);
    assert(archive_tasks_view(tasks@) =~= Seq::<ArchiveTaskView>::empty());
    match find_image_folders(root, source_root, dest_root, recursive, &mut tasks, &callback) {
        Ok(()) => Ok(tasks),
        Err(e) => Err(e),
    }
}

/// Whether the archive search descends into subfolders: not when the source
/// is a file or a folder archived on its own (non-recursive mode).
pub fn searches_recursively(source_is_file: bool, source_is_dir: bool, recursive: bool) -> (b: bool)
    ensures
        b == !(source_is_file || (!recursive && source_is_dir)),
{
    !(source_is_file || (!recursive && source_is_dir))
}

/// What an archive run does once its tasks are known.
pub enum ArchiveStep {
    /// No folder to archive.
    NothingToDo,
    /// Show the planned work only; `delete` when cleanup was asked for.
    Preview { delete: bool },
    /// Ask the user to confirm deletion before archiving.
    Confirm,
    /// Archive now.
    Execute,
}

/// Decides the next step of an archive run.
pub fn next_archive_step(task_count: usize, dry_run: bool, cleanup: bool, force: bool) -> (s: ArchiveStep)
    ensures
        task_count == 0 ==> s is NothingToDo,
        task_count > 0 && dry_run ==> s == (ArchiveStep::Preview { delete: cleanup }),
        task_count > 0 && !dry_run && cleanup && !force ==> s is Confirm,
        task_count > 0 && !dry_run && !(cleanup && !force) ==> s is Execute,
{
    if task_count == 0 {
        ArchiveStep::NothingToDo
    } else if dry_run {
        ArchiveStep::Preview { delete: cleanup }
    } else if cleanup && !force {
        ArchiveStep::Confirm
    } else {
        ArchiveStep::Execute
    }
}

/// A file that goes into an archive: an image (an extension in `exts`) or
/// an `xml` sidecar.
pub open spec fn archivable(name: Seq<char>, exts: Seq<Seq<char>>) -> bool {
    match lower_ext(parse_text(name)) {
        Some(e) => exts.contains(e) || e == "xml"@,
        None => false,
    }
}

/// The position at which `x` enters `sorted` in a stable insertion: after
/// every element that does not order after it.
pub open spec fn insert_pos(sorted: Seq<Seq<char>>, x: Seq<char>) -> int
    decreases sorted.len(),
{
    if sorted.len() == 0 {
        0
    } else if natural_order(sorted.last(), x) == 1 {
        insert_pos(sorted.drop_last(), x)
    } else {
        sorted.len() as int
    }
}

/// The names in natural order, equal names keeping their relative order
/// (the stable sort by `natord::compare`).
pub open spec fn natural_sorted(s: Seq<Seq<char>>) -> Seq<Seq<char>>
    decreases s.len(),
{
    if s.len() == 0 {
        Seq::empty()
    } else {
        let p = natural_sorted(s.drop_last());
        p.insert(insert_pos(p, s.last()), s.last())
    }
}

/// No name of the list orders after the next one.
pub open spec fn naturally_ordered(s: Seq<Seq<char>>) -> bool {
    forall|i: int| 0 <= i < s.len() - 1 ==> natural_order(#[trigger] s[i], s[i + 1]) != 1
}

/// The regular files of a folder that go into its archive, by name, in the
/// folder's listing order.
pub open spec fn archivable_files(entries: Seq<(String, bool)>, exts: Seq<Seq<char>>) -> Seq<Seq<char>>
    decreases entries.len(),
{
    if entries.len() == 0 {
        Seq::empty()
    } else {
        let rest = archivable_files(entries.drop_last(), exts);
        let e = entries.last();
        if e.1 && archivable(e.0@, exts) {
            rest.push(e.0@)
        } else {
            rest
        }
    }
}

pub proof fn lemma_insert_pos(sorted: Seq<Seq<char>>, x: Seq<char>, j: int)
    requires
        0 <= j <= sorted.len(),
        j == 0 || natural_order(sorted[j - 1], x) != 1,
        forall|k: int| j <= k < sorted.len() ==> natural_order(sorted[k], x) == 1,
    ensures
        insert_pos(sorted, x) == j,
    decreases sorted.len(),
{
    if sorted.len() > 0 && j < sorted.len() {
        lemma_insert_pos(sorted.drop_last(), x, j);
    }
}

/// Gathers the files of a folder that go into its archive and sorts them
/// naturally; a folder without any is an error.
pub fn collect_and_sort_images(entries: &Vec<(String, bool)>, src_dir: &MPath) -> (r: Result<
    Vec<String>,
    ImageError,
>)
    ensures
        match r {
            Ok(names) => archivable_files(entries@, image_extensions()).len() > 0 && names@.map_values(
                |s: String| s@,
            ) == natural_sorted(archivable_files(entries@, image_extensions())) && naturally_ordered(
                names@.map_values(|s: String| s@),
            ),
            Err(e) => archivable_files(entries@, image_extensions()).len() == 0 && e@
                == ImageErrorView::NoImagesFound(src_dir@),
        },
{
    let files = sorted_archivable(entries, &image_extension_list());
    if files.len() == 0 {
        return Err(ImageError::NoImagesFound(src_dir.duplicate()));
    }
    Ok(files)
}

/// The files of a folder that go into an archive, sorted naturally.
pub(crate) fn sorted_archivable(entries: &Vec<(String, bool)>, exts: &Vec<&str>) -> (files: Vec<String>)
    ensures
        files@.map_values(|s: String| s@) == natural_sorted(archivable_files(entries@, names_view(exts@))),
        files@.len() == archivable_files(entries@, names_view(exts@)).len(),
        naturally_ordered(files@.map_values(|s: String| s@)),
{
    let ghost ex = names_view(exts@);
    let mut files: Vec<String> = Vec::new();
    let n = entries.len();
    let mut i: usize = 0;
    while i < n
        invariant
            n == entries@.len(),
            i <= n,
            ex == names_view(exts@),
            files@.map_values(|s: String| s@) == natural_sorted(archivable_files(entries@.take(i as int), ex)),
            naturally_ordered(files@.map_values(|s: String| s@)),
        decreases n - i,
    {
        let (name, is_file) = (&entries[i].0, entries[i].1);
        let ghost rest = archivable_files(entries@.take(i as int), ex);
        assert(entries@.take(i + 1).drop_last() =~= entries@.take(i as int));
        assert(entries@.take(i + 1).last() == entries@[i as int]);
        if is_file && is_archivable(name.as_str(), exts) {
            let copy = name.clone();
            insert_naturally(&mut files, copy);
            assert(rest.push(name@).drop_last() =~= rest);
        }
        i = i + 1;
    }
    assert(entries@.take(n as int) =~= entries@);
    proof {
        lemma_natural_sorted_len(archivable_files(entries@, ex));
        assert(files@.len() == files@.map_values(|s: String| s@).len());
    }
    files
}

proof fn lemma_natural_sorted_len(s: Seq<Seq<char>>)
    ensures
        natural_sorted(s).len() == s.len(),
    decreases s.len(),
{
    if s.len() > 0 {
        lemma_natural_sorted_len(s.drop_last());
        let p = natural_sorted(s.drop_last());
        lemma_insert_pos_range(p, s.last());
    }
}

proof fn lemma_insert_pos_range(sorted: Seq<Seq<char>>, x: Seq<char>)
    ensures
        0 <= insert_pos(sorted, x) <= sorted.len(),
    decreases sorted.len(),
{
    if sorted.len() > 0 {
        lemma_insert_pos_range(sorted.drop_last(), x);
    }
}

/// Whether a file name goes into an archive.
fn is_archivable(name: &str, exts: &Vec<&str>) -> (b: bool)
    ensures
        b == archivable(name@, names_view(exts@)),
{
    let p = MPath::parse(name);
    match lower_extension(&p) {
        Some(e) => list_contains(exts, e.as_str()) || str_eq(e.as_str(), "xml"),
        None => false,
    }
}

/// Inserts a name into a naturally sorted list, after the names that do not
/// order after it; the list stays sorted.
fn insert_naturally(files: &mut Vec<String>, name: String)
    requires
        naturally_ordered(old(files)@.map_values(|s: String| s@)),
    ensures
        final(files)@.map_values(|s: String| s@) == old(files)@.map_values(|s: String| s@).insert(
            insert_pos(old(files)@.map_values(|s: String| s@), name@),
            name@,
        ),
        naturally_ordered(final(files)@.map_values(|s: String| s@)),
{
    let ghost v = files@.map_values(|s: String| s@);
    let mut j: usize = files.len();
    while j > 0 && natural_compare(files[j - 1].as_str(), name.as_str()) == 1
        invariant
            j <= files@.len(),
            v == files@.map_values(|s: String| s@),
            forall|k: int| j <= k < v.len() ==> natural_order(v[k], name@) == 1,
            forall|k: int| j <= k < v.len() ==> natural_order(name@, v[k]) == -1,
        decreases j,
    {
        j = j - 1;
    }
    proof {
        lemma_insert_pos(v, name@, j as int);
    }
    let ghost old_files = files@;
    files.insert(j, name);
    let ghost q = files@.map_values(|s: String| s@);
    assert(q =~= v.insert(j as int, name@));
    assert forall|i: int| 0 <= i < q.len() - 1 implies natural_order(#[trigger] q[i], q[i + 1]) != 1 by {
        if i + 1 < j {
            assert(q[i] == v[i] && q[i + 1] == v[i + 1]);
        } else if i + 1 == j {
            assert(q[i] == v[i] && q[i + 1] == name@);
        } else if i == j {
            assert(q[i] == name@ && q[i + 1] == v[j as int]);
        } else {
            assert(q[i] == v[i - 1] && q[i + 1] == v[i]);
        }
    }
}

/// Checks that a written archive holds the expected number of entries.
pub fn verify_archive(archive_path: &MPath, entry_count: usize, expected_count: usize) -> (r: Result<
    (),
    ImageError,
>)
    ensures
        entry_count == expected_count ==> r is Ok,
        entry_count != expected_count ==> (r matches Err(e) && e@ == ImageErrorView::VerificationFailed(
            archive_path@,
        )),
{
    if entry_count != expected_count {
        return Err(ImageError::VerificationFailed(archive_path.duplicate()));
    }
    Ok(())
}

/// Settles a written archive: it must hold every file of its folder, and
/// only then may its folder be removed (when cleanup is asked for outside a
/// dry run). `Ok(true)` tells the caller to remove the folder.
pub fn settle_archive(
    archive_path: &MPath,
    entry_count: usize,
    expected_count: usize,
    cleanup: bool,
    dry_run: bool,
) -> (r: Result<bool, ImageError>)
    ensures
        r matches Ok(true) ==> entry_count == expected_count,
        match r {
            Ok(remove) => entry_count == expected_count && remove == (cleanup && !dry_run),
            Err(e) => entry_count != expected_count && e@ == ImageErrorView::VerificationFailed(
                archive_path@,
            ),
        },
{
    match verify_archive(archive_path, entry_count, expected_count) {
        Ok(()) => Ok(removes_source(cleanup, dry_run)),
        Err(e) => Err(e),
    }
}

/// Whether a folder is deleted after its archive was written and checked.
pub fn removes_source(cleanup: bool, dry_run: bool) -> (b: bool)
    ensures
        b == (cleanup && !dry_run),
{
    cleanup && !dry_run
}

/// Sorting keeps every name: the naturally sorted list is a permutation of
/// its input.
pub proof fn law_natural_sort_is_permutation(s: Seq<Seq<char>>)
    ensures
        natural_sorted(s).to_multiset() == s.to_multiset(),
    decreases s.len(),
{
    broadcast use vstd::seq_lib::group_to_multiset_ensures;

    if s.len() > 0 {
        law_natural_sort_is_permutation(s.drop_last());
        let p = natural_sorted(s.drop_last());
        lemma_insert_pos_range(p, s.last());
        let j = insert_pos(p, s.last());
        let q = p.insert(j, s.last());
        assert(q.remove(j) =~= p);
        assert(q.remove(j).to_multiset() =~= q.to_multiset().remove(q[j]));
        assert(s.drop_last().push(s.last()) =~= s);
        assert(q.to_multiset() =~= p.to_multiset().insert(s.last()));
    }
}

/// When natural order is antisymmetric on the names being sorted (as
/// `natural_compare` states of every pair it compares), every name in the
/// sorted list orders no later than the next one.
pub proof fn law_natural_sort_orders_neighbours(s: Seq<Seq<char>>)
    requires
        forall|a: Seq<char>, b: Seq<char>|
            s.contains(a) && s.contains(b) && #[trigger] natural_order(a, b) == 1 ==> #[trigger] natural_order(b, a) == -1,
    ensures
        forall|i: int|
            0 <= i < natural_sorted(s).len() - 1 ==> natural_order(
                #[trigger] natural_sorted(s)[i],
                natural_sorted(s)[i + 1],
            ) != 1,
    decreases s.len(),
{
    broadcast use vstd::seq_lib::group_to_multiset_ensures;

    if s.len() > 0 {
        let r = s.drop_last();
        assert forall|a: Seq<char>, b: Seq<char>|
            r.contains(a) && r.contains(b) && #[trigger] natural_order(a, b) == 1 implies #[trigger] natural_order(b, a) == -1 by {
            let ia = choose|k: int| 0 <= k < r.len() && r[k] == a;
            let ib = choose|k: int| 0 <= k < r.len() && r[k] == b;
            assert(s[ia] == a && s[ib] == b);
        }
        law_natural_sort_orders_neighbours(r);
        let p = natural_sorted(r);
        let x = s.last();
        lemma_insert_pos_range(p, x);
        lemma_natural_sorted_len(r);
        law_natural_sort_is_permutation(r);
        let j = insert_pos(p, x);
        let q = p.insert(j, x);
        lemma_insert_pos_facts(p, x);
        assert(s.contains(x));
        assert forall|i: int| 0 <= i < q.len() - 1 implies natural_order(#[trigger] q[i], q[i + 1]) != 1 by {
            if i + 1 < j {
                assert(q[i] == p[i] && q[i + 1] == p[i + 1]);
            } else if i + 1 == j {
                assert(q[i] == p[i] && q[i + 1] == x);
            } else if i == j {
                assert(q[i] == x && q[i + 1] == p[j]);
                assert(natural_order(p[j], x) == 1);
                assert(p.to_multiset().count(p[j]) > 0);
                assert(r.contains(p[j]));
                assert(s.contains(p[j])) by {
                    let k = choose|k: int| 0 <= k < r.len() && r[k] == p[j];
                    assert(s[k] == p[j]);
                }
            } else {
                assert(q[i] == p[i - 1] && q[i + 1] == p[i]);
            }
        }
    }
}

proof fn lemma_insert_pos_facts(sorted: Seq<Seq<char>>, x: Seq<char>)
    ensures
        insert_pos(sorted, x) == 0 || natural_order(sorted[insert_pos(sorted, x) - 1], x) != 1,
        forall|k: int| insert_pos(sorted, x) <= k < sorted.len() ==> natural_order(sorted[k], x) == 1,
    decreases sorted.len(),
{
    if sorted.len() > 0 {
        lemma_insert_pos_facts(sorted.drop_last(), x);
        lemma_insert_pos_range(sorted.drop_last(), x);
        if natural_order(sorted.last(), x) == 1 {
            let j = insert_pos(sorted.drop_last(), x);
            assert forall|k: int| j <= k < sorted.len() implies natural_order(sorted[k], x) == 1 by {
                if k < sorted.len() - 1 {
                    assert(sorted[k] == sorted.drop_last()[k]);
                }
            }
            if j > 0 {
                assert(sorted[j - 1] == sorted.drop_last()[j - 1]);
            }
        }
    }
}

/// The answer that confirms deletion: `DELETE`, around which white space
/// is ignored.
pub fn confirms_deletion(input: &str) -> (b: bool)
    ensures
        b == (trimmed(input@) == "DELETE"@),
{
    let t = trim(input);
    str_eq(t.as_str(), "DELETE")
}

/// How many folders the deletion warning lists by name, and how many it
/// only counts: the first ten are listed.
pub fn warning_listing(count: usize) -> (r: (usize, usize))
    ensures
        r.0 == if count < 10 {
            count
        } else {
            10
        },
        r.1 == if count > 10 {
            count - 10
        } else {
            0
        },
{
    if count > 10 {
        (10, count - 10)
    } else {
        (count, 0)
    }
}

/// The name a file gets inside the archive: its own file name.
pub fn zip_entry_name(path: &MPath) -> (r: Result<String, ImageError>)
    ensures
        match file_name(path@) {
            Some(n) => r matches Ok(s) && s@ == n,
            None => r matches Err(e) && e@ == ImageErrorView::InvalidFilename(path@),
        },
{
    match path.file_name() {
        Some(n) => Ok(n),
        None => Err(ImageError::InvalidFilename(path.duplicate())),
    }
}

} // verus!
