//! Planning of an image conversion run: which task each asset yields, where
//! its output goes, how tasks are grouped, and what each task does.
use vstd::prelude::*;

use crate::kinds::{handling, handling_of, lower_ext, lower_extension, Handling};
use crate::paths::{
    extension, file_name, file_stem, join, parent, parse_text, renamed_part, strip_prefix, with_extension, MPath,
    PathView, render,
};
use crate::naming::{truncated_start, Naming};
use crate::text::{lemma_lex_order, lemma_lex_transitive, lex_lt, owned, str_eq, str_less};
use crate::walker::{Asset, AssetView, MediaSource, SourceView};

verus! {

/// Discriminates between direct file tasks and internal archive tasks.
pub enum TaskType {
    /// Processing a standalone image file.
    File,
    /// Processing an image file located within a ZIP/CBZ archive.
    Archive {
        /// The path of the file inside the archive.
        internal_path: String,
    },
    /// Extracting a file from a ZIP/CBZ archive without re-encoding it.
    ArchiveCopy {
        /// The path of the file inside the archive.
        internal_path: String,
    },
    /// Directly copying a file without re-encoding it.
    Copy,
}

/// Represents a single image conversion job.
pub struct Task {
    /// Path to the source file (or archive).
    pub src_path: MPath,
    /// Target path for the converted image.
    pub dest_path: MPath,
    /// Specification of the task origin.
    pub task_type: TaskType,
}

/// The abstract value of a `TaskType`.
pub enum KindView {
    File,
    Archive(Seq<char>),
    ArchiveCopy(Seq<char>),
    Copy,
}

/// The abstract value of a `Task`.
pub struct TaskView {
    pub src: PathView,
    pub dest: PathView,
    pub kind: KindView,
}

impl View for TaskType {
    type V = KindView;

    open spec fn view(&self) -> KindView {
        match self {
            TaskType::File => KindView::File,
            TaskType::Archive { internal_path } => KindView::Archive(internal_path@),
            TaskType::ArchiveCopy { internal_path } => KindView::ArchiveCopy(internal_path@),
            TaskType::Copy => KindView::Copy,
        }
    }
}

impl View for Task {
    type V = TaskView;

    open spec fn view(&self) -> TaskView {
        TaskView { src: self.src_path@, dest: self.dest_path@, kind: self.task_type@ }
    }
}

impl Task {
    /// A copy of the task.
    pub fn duplicate(&self) -> (t: Task)
        ensures
            t@ == self@,
    {
        Task {
            src_path: self.src_path.duplicate(),
            dest_path: self.dest_path.duplicate(),
            task_type: match &self.task_type {
                TaskType::File => TaskType::File,
                TaskType::Archive { internal_path } => TaskType::Archive {
                    internal_path: internal_path.clone(),
                },
                TaskType::ArchiveCopy { internal_path } => TaskType::ArchiveCopy {
                    internal_path: internal_path.clone(),
                },
                TaskType::Copy => TaskType::Copy,
            },
        }
    }
}

/// The views of a list of tasks.
pub open spec fn tasks_view(ts: Seq<Task>) -> Seq<TaskView> {
    ts.map_values(|t: Task| t@)
}

/// The path that a file name (or nothing) denotes.
pub open spec fn name_path(n: Option<Seq<char>>) -> PathView {
    match n {
        Some(s) => parse_text(s),
        None => parse_text(Seq::empty()),
    }
}

/// The output path of a file found under `source`: for a single source file,
/// the destination itself when it has an extension, else the destination
/// directory joined with the file name; otherwise the destination joined
/// with the file's path relative to the source. `new_ext` replaces the
/// extension when given.
pub open spec fn target_path(
    path: PathView,
    source: PathView,
    source_is_file: bool,
    dest: PathView,
    new_ext: Option<Seq<char>>,
) -> PathView {
    let base = if source_is_file {
        if extension(dest) is Some {
            dest
        } else {
            join(dest, name_path(file_name(path)))
        }
    } else {
        let rel = match strip_prefix(path, source) {
            Some(r) => r,
            None => path,
        };
        join(dest, rel)
    };
    if source_is_file && extension(dest) is Some {
        base
    } else {
        match new_ext {
            Some(e) => with_extension(base, e),
            None => base,
        }
    }
}

/// The task a file on disk yields, by its lowercase extension and whether
/// it is animated (see `handling_of`): a conversion to `format`, a copy
/// that keeps the file's name, or nothing.
pub open spec fn file_task(
    path: PathView,
    source: PathView,
    source_is_file: bool,
    dest: PathView,
    format: Seq<char>,
    animated: bool,
) -> Option<TaskView> {
    match lower_ext(path) {
        Some(e) => match handling_of(e, animated) {
            Handling::Convert => Some(
                TaskView {
                    src: path,
                    dest: target_path(path, source, source_is_file, dest, Some(format)),
                    kind: KindView::File,
                },
            ),
            Handling::Copy => Some(
                TaskView {
                    src: path,
                    dest: target_path(path, source, source_is_file, dest, None),
                    kind: KindView::Copy,
                },
            ),
            Handling::Skip => None,
        },
        None => None,
    }
}

/// Where an archive entry is extracted to: the destination, then the
/// archive's directory relative to the source, then the archive's stem, then
/// the entry's path.
pub open spec fn archive_location(archive: PathView, entry: Seq<char>, source: PathView, dest: PathView) -> PathView {
    let rel = match strip_prefix(archive, source) {
        Some(r) => r,
        None => archive,
    };
    let dir = match parent(rel) {
        Some(p) => p,
        None => parse_text(Seq::empty()),
    };
    let stem = match file_stem(archive) {
        Some(s) => s,
        None => Seq::empty(),
    };
    join(join(join(dest, dir), parse_text(stem)), parse_text(entry))
}

/// The output path of an archive entry: the destination, then the archive's
/// directory relative to the source, then the archive's stem, then the
/// entry's path, with the extension set to `format`.
pub open spec fn archive_target(
    archive: PathView,
    entry: Seq<char>,
    source: PathView,
    dest: PathView,
    format: Seq<char>,
) -> PathView {
    let rel = match strip_prefix(archive, source) {
        Some(r) => r,
        None => archive,
    };
    let dir = match parent(rel) {
        Some(p) => p,
        None => parse_text(Seq::empty()),
    };
    let stem = match file_stem(archive) {
        Some(s) => s,
        None => Seq::empty(),
    };
    with_extension(join(join(join(dest, dir), parse_text(stem)), parse_text(entry)), format)
}

/// The task an archive entry yields, by the entry's lowercase extension
/// and whether it is animated: a conversion, an extraction without
/// re-encoding, or nothing.
pub open spec fn entry_task(
    archive: PathView,
    entry: Seq<char>,
    source: PathView,
    dest: PathView,
    format: Seq<char>,
    animated: bool,
) -> Option<TaskView> {
    match lower_ext(parse_text(entry)) {
        Some(e) => match handling_of(e, animated) {
            Handling::Convert => Some(
                TaskView {
                    src: archive,
                    dest: archive_target(archive, entry, source, dest, format),
                    kind: KindView::Archive(entry),
                },
            ),
            Handling::Copy => Some(
                TaskView {
                    src: archive,
                    dest: archive_location(archive, entry, source, dest),
                    kind: KindView::ArchiveCopy(entry),
                },
            ),
            Handling::Skip => None,
        },
        None => None,
    }
}

/// The tasks an asset yields.
pub open spec fn asset_tasks(
    a: AssetView,
    source: PathView,
    source_is_file: bool,
    dest: PathView,
    format: Seq<char>,
    animated: bool,
) -> Seq<TaskView> {
    let t = match a.source {
        SourceView::Filesystem(p) => file_task(p, source, source_is_file, dest, format, animated),
        SourceView::Archive(ap, entry) => entry_task(ap, entry, source, dest, format, animated),
    };
    match t {
        Some(t) => seq![t],
        None => Seq::empty(),
    }
}

/// The tasks of all assets, in asset order; `animated` tells for each asset
/// whether it is animated.
pub open spec fn all_tasks(
    assets: Seq<AssetView>,
    animated: Seq<bool>,
    source: PathView,
    source_is_file: bool,
    dest: PathView,
    format: Seq<char>,
) -> Seq<TaskView>
    decreases assets.len(),
{
    if assets.len() == 0 {
        Seq::empty()
    } else {
        all_tasks(assets.drop_last(), animated.drop_last(), source, source_is_file, dest, format)
            + asset_tasks(assets.last(), source, source_is_file, dest, format, animated.last())
    }
}

/// The name of the container a task is grouped in: for a file or copy task,
/// the directory of the file relative to the source (`root` when there is
/// none); for an archive task, the archive's file name.
pub open spec fn container_name(t: TaskView, source: PathView) -> Seq<char> {
    match t.kind {
        KindView::Archive(_) | KindView::ArchiveCopy(_) => match file_name(t.src) {
            Some(n) => n,
            None => "unknown_archive"@,
        },
        _ => {
            let rel = match strip_prefix(t.src, source) {
                Some(r) => r,
                None => t.src,
            };
            match parent(rel) {
                Some(p) => render(p),
                None => "root"@,
            }
        },
    }
}

/// Output extension must not hold a separator (`Path::with_extension`
/// rejects one).
pub open spec fn valid_format(format: Seq<char>) -> bool {
    !format.contains('/')
}

/// Generates the task for a file on the filesystem; `animated` tells
/// whether the file is an animated image.
pub fn generate_filesystem_task(
    path: &MPath,
    source_path: &MPath,
    source_is_file: bool,
    dest_path: &MPath,
    format: &str,
    animated: bool,
) -> (r: Option<Task>)
    requires
        valid_format(format@),
    ensures
        r matches Some(t) ==> file_task(path@, source_path@, source_is_file, dest_path@, format@, animated)
            == Some(t@),
        r is None ==> file_task(path@, source_path@, source_is_file, dest_path@, format@, animated) is None,
{
    let ext = match lower_extension(path) {
        Some(e) => e,
        None => {
            return None;
        },
    };
    let convert = match handling(ext.as_str(), animated) {
        Handling::Convert => true,
        Handling::Copy => false,
        Handling::Skip => {
            return None;
        },
    };
    let dest_has_ext = dest_path.extension().is_some();
    let base = if source_is_file {
        if dest_has_ext {
            dest_path.duplicate()
        } else {
            let fname = match path.file_name() {
                Some(n) => MPath::parse(n.as_str()),
                None => {
                    proof {
                        reveal_strlit("");
                    }
                    MPath::parse("")
                },
            };
            assert(fname@ == name_path(file_name(path@)));
            dest_path.join(&fname)
        }
    } else {
        let rel = match path.strip_prefix(source_path) {
            Some(r) => r,
            None => path.duplicate(),
        };
        dest_path.join(&rel)
    };
    let target = if source_is_file && dest_has_ext {
        base
    } else if convert {
        base.with_extension(format)
    } else {
        base
    };
    Some(
        Task {
            src_path: path.duplicate(),
            dest_path: target,
            task_type: if convert {
                TaskType::File
            } else {
                TaskType::Copy
            },
        },
    )
}

/// Generates the task for an entry inside an archive.
pub fn generate_archive_task(
    archive_path: &MPath,
    entry_name: &str,
    source_path: &MPath,
    dest_path: &MPath,
    format: &str,
) -> (t: Task)
    requires
        valid_format(format@),
    ensures
        t@ == (TaskView {
            src: archive_path@,
            dest: archive_target(archive_path@, entry_name@, source_path@, dest_path@, format@),
            kind: KindView::Archive(entry_name@),
        }),
{
    let rel = match archive_path.strip_prefix(source_path) {
        Some(r) => r,
        None => archive_path.duplicate(),
    };
    proof {
        reveal_strlit("");
    }
    let dir = match rel.parent() {
        Some(p) => p,
        None => MPath::parse(""),
    };
    let stem = match archive_path.file_stem() {
        Some(s) => s,
        None => owned(""),
    };
    let dest_file = dest_path.join(&dir).join(&MPath::parse(stem.as_str())).join(
        &MPath::parse(entry_name),
    ).with_extension(format);
    Task {
        src_path: archive_path.duplicate(),
        dest_path: dest_file,
        task_type: TaskType::Archive { internal_path: owned(entry_name) },
    }
}

/// The path where an archive entry is extracted to.
fn entry_location(archive_path: &MPath, entry_name: &str, source_path: &MPath, dest_path: &MPath) -> (p: MPath)
    ensures
        p@ == archive_location(archive_path@, entry_name@, source_path@, dest_path@),
{
    let rel = match archive_path.strip_prefix(source_path) {
        Some(r) => r,
        None => archive_path.duplicate(),
    };
    proof {
        reveal_strlit("");
    }
    let dir = match rel.parent() {
        Some(p) => p,
        None => MPath::parse(""),
    };
    let stem = match archive_path.file_stem() {
        Some(s) => s,
        None => owned(""),
    };
    dest_path.join(&dir).join(&MPath::parse(stem.as_str())).join(&MPath::parse(entry_name))
}

/// Generates the task of an archive entry; `animated` tells whether the
/// entry is an animated image.
pub fn archive_entry_task(
    archive_path: &MPath,
    entry_name: &str,
    source_path: &MPath,
    dest_path: &MPath,
    format: &str,
    animated: bool,
) -> (r: Option<Task>)
    requires
        valid_format(format@),
    ensures
        r matches Some(t) ==> entry_task(archive_path@, entry_name@, source_path@, dest_path@, format@, animated)
            == Some(t@),
        r is None ==> entry_task(archive_path@, entry_name@, source_path@, dest_path@, format@, animated) is None,
{
    let ext = match lower_extension(&MPath::parse(entry_name)) {
        Some(e) => e,
        None => {
            return None;
        },
    };
    match handling(ext.as_str(), animated) {
        Handling::Convert => Some(generate_archive_task(archive_path, entry_name, source_path, dest_path, format)),
        Handling::Copy => Some(
            Task {
                src_path: archive_path.duplicate(),
                dest_path: entry_location(archive_path, entry_name, source_path, dest_path),
                task_type: TaskType::ArchiveCopy { internal_path: owned(entry_name) },
            },
        ),
        Handling::Skip => None,
    }
}

/// Processes a single scanned asset to generate its conversion tasks;
/// `animated` tells whether the asset is an animated image.
pub fn process_asset_for_tasks(
    asset: &Asset,
    source_path: &MPath,
    source_is_file: bool,
    dest_path: &MPath,
    format: &str,
    animated: bool,
) -> (ts: Vec<Task>)
    requires
        valid_format(format@),
    ensures
        tasks_view(ts@) == asset_tasks(asset@, source_path@, source_is_file, dest_path@, format@, animated),
{
    let t = match &asset.source {
        MediaSource::Filesystem(p) => generate_filesystem_task(p, source_path, source_is_file, dest_path, format, animated),
        MediaSource::Archive { archive_path, entry_name } => archive_entry_task(
            archive_path,
            entry_name.as_str(),
            source_path,
            dest_path,
            format,
            animated,
        ),
    };
    let mut ts: Vec<Task> = Vec::new();
    match t {
        Some(t) => {
            ts.push(t);
            assert(tasks_view(ts@) =~= seq![ts@[0]@]);
        },
        None => {
            assert(tasks_view(ts@) =~= Seq::<TaskView>::empty());
        },
    }
    ts
}

/// Helper to determine the grouping container name for a task.
pub fn get_container_name(task: &Task, source_path: &MPath) -> (name: String)
    ensures
        name@ == container_name(task@, source_path@),
{
    match &task.task_type {
        TaskType::Archive { .. } | TaskType::ArchiveCopy { .. } => match task.src_path.file_name() {
            Some(n) => n,
            None => owned("unknown_archive"),
        },
        _ => {
            let rel = match task.src_path.strip_prefix(source_path) {
                Some(r) => r,
                None => task.src_path.duplicate(),
            };
            match rel.parent() {
                Some(p) => p.render(),
                None => owned("root"),
            }
        },
    }
}

/// The test for membership of a container.
pub open spec fn in_container(source: PathView, name: Seq<char>) -> spec_fn(TaskView) -> bool {
    |t: TaskView| container_name(t, source) == name
}

/// The tasks of one container.
pub open spec fn members(tasks: Seq<TaskView>, source: PathView, name: Seq<char>) -> Seq<TaskView> {
    tasks.filter(in_container(source, name))
}

/// The container names, in strictly increasing order.
pub open spec fn sorted_names(names: Seq<Seq<char>>) -> bool {
    forall|i: int, j: int| 0 <= i < j < names.len() ==> lex_lt(#[trigger] names[i], #[trigger] names[j])
}

/// A plan groups the tasks exactly: its names are sorted and are the
/// container names of the tasks, and each group holds the tasks of its
/// container in task order, at least one.
pub open spec fn plan_groups(
    groups: Seq<(Seq<char>, Seq<TaskView>)>,
    tasks: Seq<TaskView>,
    source: PathView,
) -> bool {
    let names = groups.map_values(|g: (Seq<char>, Seq<TaskView>)| g.0);
    &&& sorted_names(names)
    &&& forall|i: int| 0 <= i < groups.len() ==> #[trigger] groups[i].1 == members(
        tasks,
        source,
        groups[i].0,
    )
    &&& forall|k: int| 0 <= k < tasks.len() ==> names.contains(
        container_name(#[trigger] tasks[k], source),
    )
    &&& forall|i: int| 0 <= i < groups.len() ==> (#[trigger] groups[i]).1.len() > 0
}

/// The view of the grouped tasks of a plan.
pub open spec fn plan_view(g: Seq<(String, Vec<Task>)>) -> Seq<(Seq<char>, Seq<TaskView>)> {
    g.map_values(|e: (String, Vec<Task>)| (e.0@, tasks_view(e.1@)))
}

/// The conversion work found in a scan.
pub struct TaskPlan {
    /// Tasks grouped by container, containers sorted by name.
    pub containers: Vec<(String, Vec<Task>)>,
    /// Total number of tasks.
    pub total_files: usize,
}

/// Collects conversion tasks for the scanned assets and groups them by
/// container; containers are ordered by name. `animated[i]` tells whether
/// `assets[i]` is an animated image.
pub fn collect_tasks(
    assets: &Vec<Asset>,
    animated: &Vec<bool>,
    source_path: &MPath,
    source_is_file: bool,
    dest_path: &MPath,
    format: &str,
) -> (plan: TaskPlan)
    requires
        valid_format(format@),
        animated@.len() == assets@.len(),
    ensures
        plan_groups(
            plan_view(plan.containers@),
            all_tasks(
                assets@.map_values(|a: Asset| a@),
                animated@,
                source_path@,
                source_is_file,
                dest_path@,
                format@,
            ),
            source_path@,
        ),
        plan.total_files as nat == all_tasks(
            assets@.map_values(|a: Asset| a@),
            animated@,
            source_path@,
            source_is_file,
            dest_path@,
            format@,
        ).len() % (usize::MAX as nat + 1),
{
    let ghost av = assets@.map_values(|a: Asset| a@);
    let ghost fl = animated@;
    let mut groups: Vec<(String, Vec<Task>)> = Vec::new();
    let mut total: usize = 0;
    let n = assets.len();
    let mut i: usize = 0;
    assert(all_tasks(av.take(0), fl.take(0), source_path@, source_is_file, dest_path@, format@) =~= Seq::<
        TaskView,
    >::empty());
    while i < n
        invariant
            n == assets@.len(),
            n == fl.len(),
            fl == animated@,
            av == assets@.map_values(|a: Asset| a@),
            i <= n,
            valid_format(format@),
            total as nat == all_tasks(
                av.take(i as int),
                fl.take(i as int),
                source_path@,
                source_is_file,
                dest_path@,
                format@,
            ).len() % (usize::MAX as nat + 1),
            plan_groups(
                plan_view(groups@),
                all_tasks(av.take(i as int), fl.take(i as int), source_path@, source_is_file, dest_path@, format@),
                source_path@,
            ),
        decreases n - i,
    {
        let ghost done = all_tasks(av.take(i as int), fl.take(i as int), source_path@, source_is_file, dest_path@, format@);
        assert(av.take(i + 1).drop_last() =~= av.take(i as int));
        assert(fl.take(i + 1).drop_last() =~= fl.take(i as int));
        let ts = process_asset_for_tasks(&assets[i], source_path, source_is_file, dest_path, format, animated[i]);
        let mut k: usize = 0;
        let ghost fresh = tasks_view(ts@);
        while k < ts.len()
            invariant
                fresh == tasks_view(ts@),
                k <= ts@.len(),
                total as nat == ((done.len() + k) as nat) % (usize::MAX as nat + 1),
                plan_groups(plan_view(groups@), done + fresh.take(k as int), source_path@),
            decreases ts@.len() - k,
        {
            let t = ts[k].duplicate();
            let name = get_container_name(&t, source_path);
            let ghost before = done + fresh.take(k as int);
            assert(done + fresh.take(k + 1) =~= before.push(t@));
            add_to_plan(&mut groups, name, t, Ghost(before), source_path);
            total = total.wrapping_add(1);
            proof {
                let m = usize::MAX as nat + 1;
                let a = (done.len() + k) as nat;
                assert((a % m + 1) % m == (a + 1) % m) by (nonlinear_arith)
                    requires m > 0;
            }
            k = k + 1;
        }
        assert(fresh.take(ts@.len() as int) =~= fresh);
        i = i + 1;
    }
    assert(av.take(n as int) =~= av);
    assert(fl.take(n as int) =~= fl);
    TaskPlan { containers: groups, total_files: total }
}

/// Filtering a sequence extended by one element.
proof fn lemma_members_push(tasks: Seq<TaskView>, t: TaskView, source: PathView, name: Seq<char>)
    ensures
        members(tasks.push(t), source, name) == if container_name(t, source) == name {
            members(tasks, source, name).push(t)
        } else {
            members(tasks, source, name)
        },
{
    reveal_with_fuel(Seq::filter, 1);
    assert(tasks.push(t).drop_last() =~= tasks);
}

/// Adds a task under its container name, keeping the names sorted.
fn add_to_plan(
    groups: &mut Vec<(String, Vec<Task>)>,
    name: String,
    t: Task,
    Ghost(tasks): Ghost<Seq<TaskView>>,
    source: &MPath,
)
    requires
        plan_groups(plan_view(old(groups)@), tasks, source@),
        name@ == container_name(t@, source@),
    ensures
        plan_groups(plan_view(final(groups)@), tasks.push(t@), source@),
{
    let ghost g = plan_view(groups@);
    let ghost names = g.map_values(|e: (Seq<char>, Seq<TaskView>)| e.0);
    let m = groups.len();
    let mut j: usize = 0;
    while j < m && str_less(groups[j].0.as_str(), name.as_str())
        invariant
            m == groups@.len(),
            j <= m,
            g == plan_view(groups@),
            names == g.map_values(|e: (Seq<char>, Seq<TaskView>)| e.0),
            forall|t: int| 0 <= t < j ==> lex_lt(names[t], name@),
        decreases m - j,
    {
        j = j + 1;
    }
    let ghost new_tasks = tasks.push(t@);
    proof {
        assert forall|q: int| 0 <= q < g.len() implies #[trigger] members(new_tasks, source@, g[q].0)
            == if g[q].0 == name@ {
            g[q].1.push(t@)
        } else {
            g[q].1
        } by {
            lemma_members_push(tasks, t@, source@, g[q].0);
        }
    }
    if j < m && str_eq(groups[j].0.as_str(), name.as_str()) {
        let ghost old_groups = groups@;
        let (gname, mut bucket) = groups.remove(j);
        let ghost old_bucket = bucket@;
        bucket.push(t);
        assert(tasks_view(bucket@) =~= tasks_view(old_bucket).push(t@));
        groups.insert(j, (gname, bucket));
        assert(groups@ =~= old_groups.update(j as int, (gname, bucket)));
        let ghost g2 = plan_view(groups@);
        assert(g2 =~= g.update(j as int, (name@, g[j as int].1.push(t@))));
        let ghost names2 = g2.map_values(|e: (Seq<char>, Seq<TaskView>)| e.0);
        assert(names2 =~= names);
        assert forall|q: int| 0 <= q < g2.len() implies #[trigger] g2[q].1 == members(
            new_tasks,
            source@,
            g2[q].0,
        ) by {
            if q != j {
                assert(g2[q] == g[q]);
                if g[q].0 == name@ {
                    assert(names[q] == names[j as int]);
                    if q < j {
                        lemma_lex_order(names[q], names[q]);
                    } else {
                        lemma_lex_order(names[j as int], names[j as int]);
                    }
                }
            }
        }
        assert forall|k: int| 0 <= k < new_tasks.len() implies names2.contains(
            container_name(#[trigger] new_tasks[k], source@),
        ) by {
            if k < tasks.len() {
                assert(new_tasks[k] == tasks[k]);
            } else {
                assert(names2[j as int] == name@);
            }
        }
    } else {
        proof {
            if j < m {
                lemma_lex_order(name@, names[j as int]);
            }
        }
        let ghost old_groups = groups@;
        let mut bucket: Vec<Task> = Vec::new();
        bucket.push(t);
        let ghost entry = (name@, seq![t@]);
        assert(tasks_view(bucket@) =~= seq![t@]);
        groups.insert(j, (name, bucket));
        let ghost g2 = plan_view(groups@);
        assert(g2 =~= g.insert(j as int, entry));
        let ghost names2 = g2.map_values(|e: (Seq<char>, Seq<TaskView>)| e.0);
        assert(names2 =~= names.insert(j as int, name@));
        proof {
            lemma_members_push(tasks, t@, source@, name@);
            assert(!names.contains(name@)) by {
                if names.contains(name@) {
                    let q = choose|q: int| 0 <= q < names.len() && names[q] == name@;
                    if q < j {
                        lemma_lex_order(name@, name@);
                    } else if q > j {
                        lemma_lex_transitive(name@, names[j as int], names[q]);
                        lemma_lex_order(name@, name@);
                    }
                }
            }
            assert(members(tasks, source@, name@) =~= Seq::<TaskView>::empty()) by {
                let f = members(tasks, source@, name@);
                if f.len() > 0 {
                    let pred = in_container(source@, name@);
                    tasks.lemma_filter_pred(pred, 0);
                    assert(f.contains(f[0]));
                    tasks.lemma_filter_contains_rev(pred, f[0]);
                    let k = choose|k: int| 0 <= k < tasks.len() && tasks[k] == f[0];
                    assert(names.contains(container_name(tasks[k], source@)));
                }
            }
            assert forall|a: int, b: int| 0 <= a < b < names2.len() implies lex_lt(
                #[trigger] names2[a],
                #[trigger] names2[b],
            ) by {
                if b < j {
                } else if a < j && b == j {
                } else if a < j && b > j {
                    if b - 1 > j {
                        lemma_lex_transitive(name@, names[j as int], names[b - 1]);
                    }
                    lemma_lex_transitive(names[a], name@, names[b - 1]);
                } else if a == j {
                    if b - 1 > j {
                        lemma_lex_transitive(name@, names[j as int], names[b - 1]);
                    }
                } else {
                }
            }
            assert forall|q: int| 0 <= q < g2.len() implies #[trigger] g2[q].1 == members(
                new_tasks,
                source@,
                g2[q].0,
            ) by {
                if q < j {
                    assert(g2[q] == g[q]);
                    assert(names[q] != name@);
                } else if q > j {
                    assert(g2[q] == g[q - 1]);
                    assert(names[q - 1] != name@);
                }
            }
            assert forall|k: int| 0 <= k < new_tasks.len() implies names2.contains(
                container_name(#[trigger] new_tasks[k], source@),
            ) by {
                if k < tasks.len() {
                    assert(new_tasks[k] == tasks[k]);
                    let q = choose|q: int|
                        0 <= q < names.len() && names[q] == container_name(tasks[k], source@);
                    if q < j {
                        assert(names2[q] == names[q]);
                    } else {
                        assert(names2[q + 1] == names[q]);
                    }
                } else {
                    assert(names2[j as int] == name@);
                }
            }
        }
    }
}

/// How an image is encoded.
pub enum Encoder {
    Avif,
    Webp,
}

/// What processing one task amounts to.
pub enum TaskStep {
    /// The output already exists and is kept.
    Skip,
    /// The source is copied; `preserve_mtime` carries its modification time over.
    Copy { preserve_mtime: bool },
    /// The source image is decoded and encoded again.
    Convert { encoder: Encoder, preserve_mtime: bool },
}

/// The output format names an encoder the tool has.
pub open spec fn known_format(format: Seq<char>) -> bool {
    format == "avif"@ || format == "webp"@
}

/// An existing output is kept unless overwriting is asked for: an output is
/// skipped when it exists with a non-zero size.
pub open spec fn skips(existing_len: Option<u64>, overwrite: bool) -> bool {
    !overwrite && (existing_len matches Some(n) && n > 0)
}

/// Decides what processing a task amounts to, given the size of its output
/// when one exists. Conversions need a known output format.
pub fn plan_task_step(
    kind: &TaskType,
    dest_existing_len: Option<u64>,
    overwrite: bool,
    no_mtime: bool,
    format: &str,
) -> (step: TaskStep)
    requires
        skips(dest_existing_len, overwrite) || kind is Copy || kind is ArchiveCopy || known_format(format@),
    ensures
        skips(dest_existing_len, overwrite) ==> step is Skip,
        !skips(dest_existing_len, overwrite) && kind is Copy ==> step == (TaskStep::Copy {
            preserve_mtime: !no_mtime,
        }),
        !skips(dest_existing_len, overwrite) && kind is ArchiveCopy ==> step == (TaskStep::Copy {
            preserve_mtime: false,
        }),
        !skips(dest_existing_len, overwrite) && (kind is File || kind is Archive) ==> step == (TaskStep::Convert {
            encoder: if format@ == "avif"@ {
                Encoder::Avif
            } else {
                Encoder::Webp
            },
            preserve_mtime: !no_mtime && kind is File,
        }),
{
    if crate::paths::PathUtil::should_skip(dest_existing_len, overwrite) {
        return TaskStep::Skip;
    }
    match kind {
        TaskType::Copy => TaskStep::Copy { preserve_mtime: !no_mtime },
        TaskType::ArchiveCopy { .. } => TaskStep::Copy { preserve_mtime: false },
        TaskType::File => TaskStep::Convert {
            encoder: if str_eq(format, "avif") {
                Encoder::Avif
            } else {
                Encoder::Webp
            },
            preserve_mtime: !no_mtime,
        },
        TaskType::Archive { .. } => TaskStep::Convert {
            encoder: if str_eq(format, "avif") {
                Encoder::Avif
            } else {
                Encoder::Webp
            },
            preserve_mtime: false,
        },
    }
}

/// The name shown while a task runs: the source's file name (`unknown`
/// when it has none) for files and copies, the entry's path for archive
/// entries; shortened from the start to its last 30 characters.
pub open spec fn task_label(t: TaskView) -> Seq<char> {
    truncated_start(
        match t.kind {
            KindView::Archive(p) => p,
            KindView::ArchiveCopy(p) => p,
            _ => match file_name(t.src) {
                Some(n) => n,
                None => "unknown"@,
            },
        },
        30,
    )
}

/// The name shown while a task runs.
pub fn task_display_name(task: &Task) -> (s: String)
    ensures
        s@ == task_label(task@),
{
    let name = match &task.task_type {
        TaskType::Archive { internal_path } => internal_path.clone(),
        TaskType::ArchiveCopy { internal_path } => internal_path.clone(),
        _ => match task.src_path.file_name() {
            Some(n) => n,
            None => owned("unknown"),
        },
    };
    Naming::truncate_from_start(name.as_str(), 30)
}

/// A converted file keeps its place: under the destination, the task's
/// output sits where the file sat under the source, with the target
/// extension.
pub proof fn law_converted_file_keeps_relative_position(
    path: PathView,
    source: PathView,
    dest: PathView,
    format: Seq<char>,
    animated: bool,
)
    requires
        strip_prefix(path, source) matches Some(rel) && !rel.absolute && rel.parts.len() > 0,
        lower_ext(path) matches Some(e) && handling_of(e, animated) == Handling::Convert,
    ensures
        file_task(path, source, false, dest, format, animated) matches Some(t) && strip_prefix(t.dest, dest)
            == Some(with_extension(strip_prefix(path, source)->0, format)),
{
    let rel = strip_prefix(path, source)->0;
    let joined = join(dest, rel);
    assert(joined.parts == dest.parts + rel.parts);
    assert(joined.parts.last() == rel.parts.last());
    assert(joined.parts.drop_last() =~= dest.parts + rel.parts.drop_last());
    let out = with_extension(joined, format);
    let w = with_extension(rel, format);
    assert(file_name(joined) == file_name(rel));
    if file_stem(rel) is Some {
        let last = renamed_part(file_stem(rel)->0, format);
        if last == seq!['.'] {
            assert(out.parts =~= dest.parts + w.parts);
        } else {
            assert(out.parts =~= dest.parts + w.parts);
        }
    }
    assert(out.parts =~= dest.parts + w.parts);
    assert(out.absolute == dest.absolute);
    if !dest.absolute && dest.parts.len() == 0 {
        assert(out =~= w);
    } else {
        assert(out.parts.take(dest.parts.len() as int) =~= dest.parts);
        assert(out.parts.skip(dest.parts.len() as int) =~= w.parts);
    }
}

/// For a folder source, a file that is copied lands at the same position
/// under the destination as it has under the source: stripped of the
/// destination root, its output path is the file's path relative to the
/// source, name and extension unchanged.
pub proof fn law_copied_file_keeps_relative_position(
    path: PathView,
    source: PathView,
    dest: PathView,
    format: Seq<char>,
    animated: bool,
)
    requires
        strip_prefix(path, source) matches Some(rel) && !rel.absolute && rel.parts.len() > 0,
        lower_ext(path) matches Some(e) && handling_of(e, animated) == Handling::Copy,
    ensures
        file_task(path, source, false, dest, format, animated) matches Some(t) && t.src == path && t.kind
            == KindView::Copy && strip_prefix(t.dest, dest) == Some(strip_prefix(path, source)->0),
{
    let rel = strip_prefix(path, source)->0;
    let out = join(dest, rel);
    assert(out.parts =~= dest.parts + rel.parts);
    if !dest.absolute && dest.parts.len() == 0 {
        assert(out =~= rel);
    } else {
        assert(out.parts.take(dest.parts.len() as int) =~= dest.parts);
        assert(out.parts.skip(dest.parts.len() as int) =~= rel.parts);
    }
}

} // verus!
