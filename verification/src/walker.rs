//! Discovery of convertible assets in a directory tree and inside archives.
use vstd::prelude::*;

use crate::kinds::{lower_ext_or_empty, lower_extension_or_empty, strings_contain, strings_view};
use crate::paths::{parent, parse_text, MPath, PathView};
use crate::text::{owned, str_eq};

verus! {

/// One entry of a ZIP/CBZ archive that could be read.
pub struct ArchiveEntry {
    /// The entry's name inside the archive.
    pub name: String,
    /// The entry is a file (not a directory).
    pub is_file: bool,
}

/// A node of a directory tree as the file system shows it (symbolic links
/// followed).
pub enum FsNode {
    /// A regular file; for a ZIP/CBZ file, the entries of the archive when it
    /// could be opened.
    File { path: MPath, archive: Option<Vec<ArchiveEntry>> },
    /// A directory; `error` holds the reason when its entries could not be
    /// read.
    Dir { path: MPath, error: Option<String>, children: Vec<FsNode> },
    /// Anything else (a dangling link, a missing path).
    Other { path: MPath },
}

/// Where an asset comes from.
pub enum MediaSource {
    /// A file on disk.
    Filesystem(MPath),
    /// An entry of an archive on disk.
    Archive { archive_path: MPath, entry_name: String },
}

/// A file found by a scan.
pub struct Asset {
    /// The actual file on disk (zip or image).
    pub path: MPath,
    /// Metadata about where it came from.
    pub source: MediaSource,
}

/// The abstract value of a `MediaSource`.
pub enum SourceView {
    Filesystem(PathView),
    Archive(PathView, Seq<char>),
}

/// The abstract value of an `Asset`.
pub struct AssetView {
    pub path: PathView,
    pub source: SourceView,
}

impl View for MediaSource {
    type V = SourceView;

    open spec fn view(&self) -> SourceView {
        match self {
            MediaSource::Filesystem(p) => SourceView::Filesystem(p@),
            MediaSource::Archive { archive_path, entry_name } => SourceView::Archive(
                archive_path@,
                entry_name@,
            ),
        }
    }
}

impl View for Asset {
    type V = AssetView;

    open spec fn view(&self) -> AssetView {
        AssetView { path: self.path@, source: self.source@ }
    }
}

impl MediaSource {
    /// A copy of the source.
    pub fn duplicate(&self) -> (r: MediaSource)
        ensures
            r@ == self@,
    {
        match self {
            MediaSource::Filesystem(p) => MediaSource::Filesystem(p.duplicate()),
            MediaSource::Archive { archive_path, entry_name } => MediaSource::Archive {
                archive_path: archive_path.duplicate(),
                entry_name: entry_name.clone(),
            },
        }
    }
}

impl Asset {
    /// A copy of the asset.
    pub fn duplicate(&self) -> (r: Asset)
        ensures
            r@ == self@,
    {
        Asset { path: self.path.duplicate(), source: self.source.duplicate() }
    }
}

/// The views of a list of assets.
pub open spec fn assets_view(a: Seq<Asset>) -> Seq<AssetView> {
    a.map_values(|x: Asset| x@)
}

/// Scans directory trees for files with chosen extensions.
pub struct Walker {
    pub extensions: Vec<String>,
    pub max_depth: usize,
    pub recursive: bool,
}

/// The path of a node.
pub open spec fn node_path(n: FsNode) -> PathView {
    match n {
        FsNode::File { path, .. } => path@,
        FsNode::Dir { path, .. } => path@,
        FsNode::Other { path } => path@,
    }
}

/// A name the walker selects by its lowercase extension.
pub open spec fn selected(exts: Seq<Seq<char>>, p: PathView) -> bool {
    exts.contains(lower_ext_or_empty(p))
}

/// A path whose lowercase extension is `zip` or `cbz`.
pub open spec fn zip_like(p: PathView) -> bool {
    lower_ext_or_empty(p) == "zip"@ || lower_ext_or_empty(p) == "cbz"@
}

/// The assets found inside an archive: its file entries whose name has a
/// selected extension, in archive order.
pub open spec fn archive_assets(exts: Seq<Seq<char>>, path: PathView, entries: Seq<ArchiveEntry>) -> Seq<
    AssetView,
>
    decreases entries.len(),
{
    if entries.len() == 0 {
        Seq::empty()
    } else {
        let rest = archive_assets(exts, path, entries.drop_last());
        let e = entries.last();
        if e.is_file && selected(exts, parse_text(e.name@)) {
            rest.push(AssetView { path, source: SourceView::Archive(path, e.name@) })
        } else {
            rest
        }
    }
}

/// What checking one file adds: the assets, and whether the file is an
/// archive.
pub open spec fn file_assets(exts: Seq<Seq<char>>, path: PathView, archive: Option<Seq<ArchiveEntry>>) -> (
    Seq<AssetView>,
    bool,
) {
    if selected(exts, path) {
        (seq![AssetView { path, source: SourceView::Filesystem(path) }], false)
    } else if zip_like(path) {
        match archive {
            Some(entries) => (archive_assets(exts, path, entries), true),
            None => (Seq::empty(), true),
        }
    } else {
        (Seq::empty(), false)
    }
}

/// The archive listing of a file node.
pub open spec fn listing(archive: Option<Vec<ArchiveEntry>>) -> Option<Seq<ArchiveEntry>> {
    match archive {
        Some(v) => Some(v@),
        None => None,
    }
}

/// The assets a scan collects from `node`, reached at `depth`, appended to
/// `acc`.
pub open spec fn scan_node(
    exts: Seq<Seq<char>>,
    max_depth: nat,
    recursive: bool,
    node: FsNode,
    depth: nat,
    acc: Seq<AssetView>,
) -> Seq<AssetView>
    decreases node, 1nat,
{
    if depth > max_depth {
        acc
    } else {
        match node {
            FsNode::File { path, archive } => acc + file_assets(exts, path@, listing(archive)).0,
            FsNode::Dir { path, error, children } => if error is None {
                scan_entries(exts, max_depth, recursive, children@, depth, acc)
            } else {
                acc
            },
            FsNode::Other { .. } => acc,
        }
    }
}

/// The assets a scan collects from the entries of a directory at `depth`,
/// in order, appended to `acc`: files are checked, and directories are
/// scanned one level deeper when the walk is recursive.
pub open spec fn scan_entries(
    exts: Seq<Seq<char>>,
    max_depth: nat,
    recursive: bool,
    entries: Seq<FsNode>,
    depth: nat,
    acc: Seq<AssetView>,
) -> Seq<AssetView>
    decreases entries, 0nat,
{
    if entries.len() == 0 {
        acc
    } else {
        let before = scan_entries(
            exts,
            max_depth,
            recursive,
            entries.subrange(0, entries.len() - 1),
            depth,
            acc,
        );
        match entries[entries.len() - 1] {
            FsNode::File { path, archive } => before + file_assets(exts, path@, listing(archive)).0,
            FsNode::Dir { .. } => if recursive {
                scan_node(exts, max_depth, recursive, entries[entries.len() - 1], depth + 1, before)
            } else {
                before
            },
            FsNode::Other { .. } => before,
        }
    }
}

/// The assets a walker finds in the tree rooted at `root`.
pub open spec fn walker_assets(w: Walker, root: FsNode) -> Seq<AssetView> {
    scan_node(strings_view(w.extensions@), w.max_depth as nat, w.recursive, root, 0, Seq::empty())
}

impl Walker {
    /// A walker that selects files by the given extensions.
    pub fn new(extensions: &[&str], max_depth: usize, recursive: bool) -> (w: Walker)
        ensures
            strings_view(w.extensions@) == extensions@.map_values(|s: &str| s@),
            w.max_depth == max_depth,
            w.recursive == recursive,
    {
        let mut exts: Vec<String> = Vec::new();
        let mut i: usize = 0;
        while i < extensions.len()
            invariant
                i <= extensions@.len(),
                strings_view(exts@) == extensions@.map_values(|s: &str| s@).take(i as int),
            decreases extensions@.len() - i,
        {
            let ghost before = exts@;
            exts.push(owned(extensions[i]));
            assert(strings_view(exts@) =~= strings_view(before).push(extensions@[i as int]@));
            i = i + 1;
            assert(strings_view(exts@) =~= extensions@.map_values(|s: &str| s@).take(i as int));
        }
        assert(extensions@.map_values(|s: &str| s@).take(i as int) =~= extensions@.map_values(
            |s: &str| s@,
        ));
        Walker { extensions: exts, max_depth, recursive }
    }

    /// Scans for files and returns a flat list of assets.
    pub fn scan_flat(&self, root: &FsNode) -> (assets: Vec<Asset>)
        ensures
            assets_view(assets@) == walker_assets(*self, *root),
    {
        self.scan_with_progress(root, |_c: usize, _i: usize| {})
    }

    /// Scans for files, reporting progress: after every container (folder or
    /// archive) or asset found, `progress` gets the number of containers and
    /// of assets so far.
    pub fn scan_with_progress<F: Fn(usize, usize)>(&self, root: &FsNode, progress: F) -> (assets: Vec<
        Asset,
    >)
        requires
            forall|c: usize, i: usize| call_requires(progress, (c, i)),
        ensures
            assets_view(assets@) == walker_assets(*self, *root),
    {
        let mut assets: Vec<Asset> = Vec::new();
        let mut containers: usize = 0;
        assert(assets_view(assets@) =~= Seq::<AssetView>::empty());
        self.scan_recursive(root, &mut assets, &mut containers, 0, &progress);
        assets
    }

    fn scan_recursive<F: Fn(usize, usize)>(
        &self,
        node: &FsNode,
        assets: &mut Vec<Asset>,
        containers: &mut usize,
        depth: usize,
        cb: &F,
    )
        requires
            forall|c: usize, i: usize| call_requires(*cb, (c, i)),
        ensures
            assets_view(final(assets)@) == scan_node(
                strings_view(self.extensions@),
                self.max_depth as nat,
                self.recursive,
                *node,
                depth as nat,
                assets_view(old(assets)@),
            ),
        decreases node,
    {
        if depth > self.max_depth {
            return;
        }
        match node {
            FsNode::File { path, archive } => {
                let (added, is_archive) = self.check_and_add_file(path, archive, assets);
                if added {
                    if is_archive {
                        *containers = containers.saturating_add(1);
                    }
                    cb(*containers, assets.len());
                }
            },
            FsNode::Dir { path: dir_path, error, children } => {
                // Folders are containers too.
                *containers = containers.saturating_add(1);
                cb(*containers, assets.len());
                if error.is_some() {
                    return;
                }
                let ghost exts = strings_view(self.extensions@);
                let ghost start = assets_view(assets@);
                let n = children.len();
                let mut i: usize = 0;
                while i < n
                    invariant
                        n == children@.len(),
                        i <= n,
                        depth <= self.max_depth,
                        *node == (FsNode::Dir { path: *dir_path, error: *error, children: *children }),
                        exts == strings_view(self.extensions@),
                        forall|c: usize, i: usize| call_requires(*cb, (c, i)),
                        assets_view(assets@) == scan_entries(
                            exts,
                            self.max_depth as nat,
                            self.recursive,
                            children@.subrange(0, i as int),
                            depth as nat,
                            start,
                        ),
                    decreases n - i,
                {
                    let child = &children[i];
                    let ghost prefix = children@.subrange(0, i + 1);
                    assert(prefix.subrange(0, prefix.len() - 1) =~= children@.subrange(0, i as int));
                    assert(prefix[prefix.len() - 1] == children@[i as int]);
                    match child {
                        FsNode::File { path, archive } => {
                            let (added, is_archive) = self.check_and_add_file(path, archive, assets);
                            if added {
                                if is_archive {
                                    *containers = containers.saturating_add(1);
                                }
                                cb(*containers, assets.len());
                            }
                        },
                        FsNode::Dir { .. } => {
                            if self.recursive && depth == usize::MAX {
                                assert(depth + 1 > self.max_depth);
                                assert(scan_node(
                                    exts,
                                    self.max_depth as nat,
                                    self.recursive,
                                    *child,
                                    (depth + 1) as nat,
                                    assets_view(assets@),
                                ) == assets_view(assets@));
                            }
                            if self.recursive && depth < usize::MAX {
                                proof {
                                    assert(*node == FsNode::Dir {
                                        path: *dir_path,
                                        error: *error,
                                        children: *children,
                                    });
                                    assert(decreases_to!(*node => node->children));
                                    assert(decreases_to!(node->children => node->children@));
                                    assert(0 <= i < children@.len());
                                    assert(decreases_to!(node->children@ => node->children@[i as int]));
                                }
                                self.scan_recursive(child, assets, containers, depth + 1, cb);
                            }
                        },
                        FsNode::Other { .. } => {},
                    }
                    i = i + 1;
                }
                assert(children@.subrange(0, n as int) =~= children@);
            },
            FsNode::Other { .. } => {},
        }
    }

    /// Checks if a file matches the target extensions and adds its assets.
    /// Returns (added_any, is_archive).
    fn check_and_add_file(
        &self,
        path: &MPath,
        archive: &Option<Vec<ArchiveEntry>>,
        assets: &mut Vec<Asset>,
    ) -> (r: (bool, bool))
        ensures
            assets_view(final(assets)@) == assets_view(old(assets)@) + file_assets(
                strings_view(self.extensions@),
                path@,
                listing(*archive),
            ).0,
            r.0 == (file_assets(strings_view(self.extensions@), path@, listing(*archive)).0.len() > 0),
            r.1 == file_assets(strings_view(self.extensions@), path@, listing(*archive)).1,
    {
        let ext = lower_extension_or_empty(path);
        if strings_contain(&self.extensions, ext.as_str()) {
            let ghost before = assets@;
            assets.push(
                Asset { path: path.duplicate(), source: MediaSource::Filesystem(path.duplicate()) },
            );
            assert(assets_view(assets@) =~= assets_view(before).push(
                AssetView { path: path@, source: SourceView::Filesystem(path@) },
            ));
            return (true, false);
        }
        if str_eq(ext.as_str(), "zip") || str_eq(ext.as_str(), "cbz") {
            let added = match archive {
                Some(entries) => self.scan_archive(path, entries, assets),
                None => {
                    assert(assets_view(assets@) =~= assets_view(assets@) + Seq::<AssetView>::empty());
                    false
                },
            };
            return (added, true);
        }
        assert(assets_view(assets@) =~= assets_view(assets@) + Seq::<AssetView>::empty());
        (false, false)
    }

    /// Adds the selected file entries of an archive as assets.
    fn scan_archive(&self, path: &MPath, entries: &Vec<ArchiveEntry>, assets: &mut Vec<Asset>) -> (added: bool)
        ensures
            assets_view(final(assets)@) == assets_view(old(assets)@) + archive_assets(
                strings_view(self.extensions@),
                path@,
                entries@,
            ),
            added == (archive_assets(strings_view(self.extensions@), path@, entries@).len() > 0),
    {
        let ghost exts = strings_view(self.extensions@);
        let ghost start = assets_view(assets@);
        let mut added = false;
        let n = entries.len();
        let mut i: usize = 0;
        while i < n
            invariant
                n == entries@.len(),
                i <= n,
                exts == strings_view(self.extensions@),
                assets_view(assets@) == start + archive_assets(exts, path@, entries@.take(i as int)),
                added == (archive_assets(exts, path@, entries@.take(i as int)).len() > 0),
            decreases n - i,
        {
            let e = &entries[i];
            assert(entries@.take(i + 1).drop_last() =~= entries@.take(i as int));
            if e.is_file {
                let entry_path = MPath::parse(e.name.as_str());
                let ext = lower_extension_or_empty(&entry_path);
                if strings_contain(&self.extensions, ext.as_str()) {
                    let ghost before = assets@;
                    assets.push(
                        Asset {
                            path: path.duplicate(),
                            source: MediaSource::Archive {
                                archive_path: path.duplicate(),
                                entry_name: e.name.clone(),
                            },
                        },
                    );
                    added = true;
                    assert(assets_view(assets@) =~= assets_view(before).push(
                        AssetView { path: path@, source: SourceView::Archive(path@, e.name@) },
                    ));
                }
            }
            i = i + 1;
        }
        assert(entries@.take(n as int) =~= entries@);
        added
    }
}

/// The path whose parent directory groups an asset.
pub open spec fn source_path(a: AssetView) -> PathView {
    match a.source {
        SourceView::Filesystem(p) => p,
        SourceView::Archive(ap, _) => ap,
    }
}

/// The directory an asset is grouped under: the parent of its file, or the
/// scan root when the file has no parent.
pub open spec fn group_key(a: AssetView, root: PathView) -> PathView {
    match parent(source_path(a)) {
        Some(q) => q,
        None => root,
    }
}

/// Index of the first occurrence of `k` in `keys`, or -1.
pub open spec fn key_index(keys: Seq<PathView>, k: PathView) -> int
    decreases keys.len(),
{
    if keys.len() == 0 {
        -1
    } else {
        let r = key_index(keys.drop_last(), k);
        if r >= 0 {
            r
        } else if keys.last() == k {
            keys.len() - 1
        } else {
            -1
        }
    }
}

/// The keys of a grouping.
pub open spec fn group_keys(g: Seq<(PathView, Seq<AssetView>)>) -> Seq<PathView> {
    g.map_values(|e: (PathView, Seq<AssetView>)| e.0)
}

/// Assets grouped by directory: one group per directory, in order of first
/// appearance, each holding its assets in scan order.
pub open spec fn grouped(assets: Seq<AssetView>, root: PathView) -> Seq<(PathView, Seq<AssetView>)>
    decreases assets.len(),
{
    if assets.len() == 0 {
        Seq::empty()
    } else {
        let g = grouped(assets.drop_last(), root);
        let a = assets.last();
        let k = group_key(a, root);
        let j = key_index(group_keys(g), k);
        if j >= 0 {
            g.update(j, (k, g[j].1.push(a)))
        } else {
            g.push((k, seq![a]))
        }
    }
}

/// The view of a grouping.
pub open spec fn groups_view(g: Seq<(MPath, Vec<Asset>)>) -> Seq<(PathView, Seq<AssetView>)> {
    g.map_values(|e: (MPath, Vec<Asset>)| (e.0@, assets_view(e.1@)))
}

pub proof fn lemma_key_index(keys: Seq<PathView>, k: PathView)
    ensures
        -1 <= key_index(keys, k) < keys.len(),
        key_index(keys, k) >= 0 ==> keys[key_index(keys, k)] == k,
        forall|m: int| 0 <= m < keys.len() && (key_index(keys, k) < 0 || m < key_index(keys, k))
            ==> keys[m] != k,
    decreases keys.len(),
{
    if keys.len() > 0 {
        lemma_key_index(keys.drop_last(), k);
        assert forall|m: int|
            0 <= m < keys.len() && (key_index(keys, k) < 0 || m < key_index(keys, k)) implies keys[m]
            != k by {
            if m < keys.len() - 1 {
                assert(keys[m] == keys.drop_last()[m]);
            }
        }
    }
}

/// The node's path.
pub fn path_of(node: &FsNode) -> (p: &MPath)
    ensures
        p@ == node_path(*node),
{
    match node {
        FsNode::File { path, .. } => path,
        FsNode::Dir { path, .. } => path,
        FsNode::Other { path } => path,
    }
}

impl Walker {
    /// Scans and groups assets by their parent directory.
    pub fn scan_grouped(&self, root: &FsNode) -> (groups: Vec<(MPath, Vec<Asset>)>)
        ensures
            groups_view(groups@) == grouped(walker_assets(*self, *root), node_path(*root)),
    {
        let assets = self.scan_flat(root);
        let root_path = path_of(root);
        let ghost av = assets_view(assets@);
        let mut groups: Vec<(MPath, Vec<Asset>)> = Vec::new();
        let n = assets.len();
        let mut i: usize = 0;
        assert(groups_view(groups@) =~= grouped(av.take(0), root_path@));
        while i < n
            invariant
                n == assets@.len(),
                av == assets_view(assets@),
                i <= n,
                groups_view(groups@) == grouped(av.take(i as int), root_path@),
            decreases n - i,
        {
            let a = &assets[i];
            assert(av.take(i + 1).drop_last() =~= av.take(i as int));
            assert(av.take(i + 1).last() == a@);
            let key = match &a.source {
                MediaSource::Filesystem(p) => p.parent(),
                MediaSource::Archive { archive_path, .. } => archive_path.parent(),
            };
            let key = match key {
                Some(q) => q,
                None => root_path.duplicate(),
            };
            let ghost g = groups_view(groups@);
            proof {
                lemma_key_index(group_keys(g), key@);
            }
            let m = groups.len();
            let mut j: usize = 0;
            while j < m
                invariant
                    m == groups@.len(),
                    j <= m,
                    g == groups_view(groups@),
                    forall|t: int| 0 <= t < j ==> group_keys(g)[t] != key@,
                ensures
                    j <= m,
                    g == groups_view(groups@),
                    forall|t: int| 0 <= t < j ==> group_keys(g)[t] != key@,
                    j < m ==> group_keys(g)[j as int] == key@,
                decreases m - j,
            {
                if groups[j].0.same_as(&key) {
                    break;
                }
                j = j + 1;
            }
            let ghost k = key_index(group_keys(g), key@);
            if j < m {
                assert(k == j) by {
                    if k < 0 || k > j {
                        assert(group_keys(g)[j as int] == key@);
                    }
                }
                let ghost old_groups = groups@;
                let (gk, mut bucket) = groups.remove(j);
                assert(gk@ == key@);
                assert(assets_view(bucket@) == g[j as int].1);
                let ghost before = bucket@;
                bucket.push(a.duplicate());
                assert(assets_view(bucket@) =~= assets_view(before).push(a@));
                groups.insert(j, (gk, bucket));
                assert(groups@ =~= old_groups.update(j as int, (gk, bucket)));
                assert(groups_view(groups@) =~= g.update(j as int, (key@, g[j as int].1.push(a@))));
            } else {
                assert(k < 0) by {
                    if k >= 0 {
                        assert(group_keys(g)[k] == key@);
                    }
                }
                let mut bucket: Vec<Asset> = Vec::new();
                bucket.push(a.duplicate());
                assert(assets_view(bucket@) =~= seq![a@]);
                groups.push((key, bucket));
                assert(groups_view(groups@) =~= g.push((key@, seq![a@])));
            }
            i = i + 1;
        }
        assert(av.take(n as int) =~= av);
        groups
    }
}

/// Grouping keeps every asset: the group sizes add up to the number of
/// assets scanned.
pub open spec fn total_members(g: Seq<(PathView, Seq<AssetView>)>) -> nat
    decreases g.len(),
{
    if g.len() == 0 {
        0
    } else {
        total_members(g.drop_last()) + g.last().1.len()
    }
}

proof fn lemma_total_members_update(g: Seq<(PathView, Seq<AssetView>)>, j: int, e: (PathView, Seq<AssetView>))
    requires
        0 <= j < g.len(),
    ensures
        total_members(g.update(j, e)) == total_members(g) - g[j].1.len() + e.1.len(),
    decreases g.len(),
{
    if j < g.len() - 1 {
        lemma_total_members_update(g.drop_last(), j, e);
        assert(g.update(j, e).drop_last() =~= g.drop_last().update(j, e));
    } else {
        assert(g.update(j, e).drop_last() =~= g.drop_last());
    }
}

/// Grouping by directory loses no asset and adds none.
pub proof fn law_grouping_keeps_every_asset(assets: Seq<AssetView>, root: PathView)
    ensures
        total_members(grouped(assets, root)) == assets.len(),
    decreases assets.len(),
{
    if assets.len() > 0 {
        law_grouping_keeps_every_asset(assets.drop_last(), root);
        let g = grouped(assets.drop_last(), root);
        let k = group_key(assets.last(), root);
        lemma_key_index(group_keys(g), k);
        let j = key_index(group_keys(g), k);
        if j >= 0 {
            lemma_total_members_update(g, j, (k, g[j].1.push(assets.last())));
        } else {
            assert(g.push((k, seq![assets.last()])).drop_last() =~= g);
        }
    }
}

/// Every asset in a group belongs to that group's directory.
pub proof fn law_group_members_share_key(assets: Seq<AssetView>, root: PathView)
    ensures
        forall|j: int, m: int|
            0 <= j < grouped(assets, root).len() && 0 <= m < grouped(assets, root)[j].1.len()
                ==> group_key(#[trigger] grouped(assets, root)[j].1[m], root) == grouped(
                assets,
                root,
            )[j].0,
    decreases assets.len(),
{
    if assets.len() > 0 {
        law_group_members_share_key(assets.drop_last(), root);
        let g = grouped(assets.drop_last(), root);
        let k = group_key(assets.last(), root);
        lemma_key_index(group_keys(g), k);
        let j0 = key_index(group_keys(g), k);
        let g2 = grouped(assets, root);
        assert forall|j: int, m: int| 0 <= j < g2.len() && 0 <= m < g2[j].1.len() implies group_key(
            #[trigger] g2[j].1[m],
            root,
        ) == g2[j].0 by {
            if j0 >= 0 {
                if j == j0 {
                    assert(group_keys(g)[j] == k);
                    if m < g[j].1.len() {
                        assert(g2[j].1[m] == g[j].1[m]);
                    }
                }
            } else {
                if j < g.len() {
                    assert(g2[j] == g[j]);
                }
            }
        }
    }
}

/// The test for membership of the group of directory `k`.
pub open spec fn keyed(root: PathView, k: PathView) -> spec_fn(AssetView) -> bool {
    |a: AssetView| group_key(a, root) == k
}

/// Filtering a scan by group key, split at its last asset.
proof fn lemma_keyed_last(assets: Seq<AssetView>, root: PathView, k: PathView)
    requires
        assets.len() > 0,
    ensures
        assets.filter(keyed(root, k)) == if group_key(assets.last(), root) == k {
            assets.drop_last().filter(keyed(root, k)).push(assets.last())
        } else {
            assets.drop_last().filter(keyed(root, k))
        },
{
    reveal_with_fuel(Seq::filter, 1);
}

/// Grouping partitions the scan: every group holds at least one asset, the
/// group directories are distinct, every asset's directory has a group, and
/// each group holds exactly the assets of its directory in scan order.
pub proof fn law_grouping_partitions_in_order(assets: Seq<AssetView>, root: PathView)
    ensures
        forall|j: int|
            0 <= j < grouped(assets, root).len() ==> (#[trigger] grouped(assets, root)[j]).1.len()
                > 0,
        forall|j: int|
            0 <= j < grouped(assets, root).len() ==> (#[trigger] grouped(assets, root)[j]).1
                == assets.filter(keyed(root, grouped(assets, root)[j].0)),
        forall|i: int, j: int|
            0 <= i < j < grouped(assets, root).len() ==> (#[trigger] grouped(assets, root)[i]).0
                != (#[trigger] grouped(assets, root)[j]).0,
        forall|m: int|
            0 <= m < assets.len() ==> group_keys(grouped(assets, root)).contains(
                group_key(#[trigger] assets[m], root),
            ),
    decreases assets.len(),
{
    if assets.len() > 0 {
        let rest = assets.drop_last();
        law_grouping_partitions_in_order(rest, root);
        let g = grouped(rest, root);
        let a = assets.last();
        let k = group_key(a, root);
        lemma_key_index(group_keys(g), k);
        let j0 = key_index(group_keys(g), k);
        let g2 = grouped(assets, root);
        assert forall|j: int| 0 <= j < g2.len() implies (#[trigger] g2[j]).1 == assets.filter(
            keyed(root, g2[j].0),
        ) by {
            lemma_keyed_last(assets, root, g2[j].0);
            if j0 >= 0 {
                if j == j0 {
                    assert(group_keys(g)[j] == k);
                } else {
                    assert(g2[j] == g[j]);
                    assert(group_keys(g)[j] == g[j].0);
                }
            } else {
                if j < g.len() {
                    assert(g2[j] == g[j]);
                    assert(group_keys(g)[j] == g[j].0);
                } else {
                    assert(rest.filter(keyed(root, k)).len() == 0) by {
                        if rest.filter(keyed(root, k)).len() > 0 {
                            let x = rest.filter(keyed(root, k))[0];
                            rest.lemma_filter_contains_rev(keyed(root, k), x);
                            let m = choose|m: int| 0 <= m < rest.len() && rest[m] == x;
                            let q = choose|q: int|
                                0 <= q < group_keys(g).len() && group_keys(g)[q] == group_key(
                                    rest[m],
                                    root,
                                );
                            rest.lemma_filter_pred(keyed(root, k), 0);
                        }
                    }
                    assert(rest.filter(keyed(root, k)) =~= Seq::<AssetView>::empty());
                    assert(seq![a] =~= Seq::<AssetView>::empty().push(a));
                }
            }
        }
        assert forall|i: int, j: int| 0 <= i < j < g2.len() implies (#[trigger] g2[i]).0 != (
        #[trigger] g2[j]).0 by {
            assert(group_keys(g).len() == g.len());
            if j0 >= 0 {
                if i < g.len() && j < g.len() {
                    if i == j0 {
                        assert(group_keys(g)[i] == g[i].0);
                    } else if j == j0 {
                        assert(group_keys(g)[j] == g[j].0);
                    }
                }
            } else if j == g.len() {
                assert(group_keys(g)[i] == g[i].0);
            }
        }
        assert forall|m: int| 0 <= m < assets.len() implies group_keys(g2).contains(
            group_key(#[trigger] assets[m], root),
        ) by {
            if m < rest.len() {
                assert(assets[m] == rest[m]);
                let q = choose|q: int|
                    0 <= q < group_keys(g).len() && group_keys(g)[q] == group_key(rest[m], root);
                assert(group_keys(g2)[q] == group_keys(g)[q]);
            } else if j0 >= 0 {
                assert(group_keys(g2)[j0] == k);
            } else {
                assert(group_keys(g2)[g.len() as int] == k);
            }
        }
    }
}

/// An archive entry that a scan takes: a file whose name has a selected
/// extension.
pub open spec fn entry_taken(exts: Seq<Seq<char>>) -> spec_fn(ArchiveEntry) -> bool {
    |e: ArchiveEntry| e.is_file && selected(exts, parse_text(e.name@))
}

/// The asset of an archive entry.
pub open spec fn entry_asset(path: PathView) -> spec_fn(ArchiveEntry) -> AssetView {
    |e: ArchiveEntry| AssetView { path, source: SourceView::Archive(path, e.name@) }
}

proof fn lemma_archive_assets_filter(exts: Seq<Seq<char>>, path: PathView, entries: Seq<ArchiveEntry>)
    ensures
        archive_assets(exts, path, entries) == entries.filter(entry_taken(exts)).map_values(
            entry_asset(path),
        ),
    decreases entries.len(),
{
    reveal_with_fuel(Seq::filter, 1);
    if entries.len() > 0 {
        lemma_archive_assets_filter(exts, path, entries.drop_last());
        let f = entries.drop_last().filter(entry_taken(exts));
        assert(f.push(entries.last()).map_values(entry_asset(path)) =~= f.map_values(
            entry_asset(path),
        ).push(entry_asset(path)(entries.last())));
    } else {
        assert(entries.filter(entry_taken(exts)).map_values(entry_asset(path)) =~= Seq::<
            AssetView,
        >::empty());
    }
}

/// A ZIP or CBZ file (by its lowercase extension) that is reached within
/// the depth limit, whose extension is not itself selected, and whose
/// listing could be read, adds exactly its file entries with a selected
/// extension, each as an asset of that archive, in listing order.
pub proof fn law_zip_and_cbz_entries_are_scanned(
    exts: Seq<Seq<char>>,
    max_depth: nat,
    recursive: bool,
    path: MPath,
    entries: Vec<ArchiveEntry>,
    depth: nat,
    acc: Seq<AssetView>,
)
    requires
        lower_ext_or_empty(path@) == "zip"@ || lower_ext_or_empty(path@) == "cbz"@,
        !exts.contains(lower_ext_or_empty(path@)),
        depth <= max_depth,
    ensures
        scan_node(exts, max_depth, recursive, FsNode::File { path, archive: Some(entries) }, depth, acc)
            == acc + entries@.filter(entry_taken(exts)).map_values(entry_asset(path@)),
{
    lemma_archive_assets_filter(exts, path@, entries@);
}

/// Inside a folder, a ZIP or CBZ file entry whose extension is not itself
/// selected and whose listing could be read adds, after what the entries
/// before it gave, exactly its file entries with a selected extension, each
/// as an asset of that archive, in listing order.
pub proof fn law_zip_and_cbz_entries_are_scanned_in_folders(
    exts: Seq<Seq<char>>,
    max_depth: nat,
    recursive: bool,
    before: Seq<FsNode>,
    path: MPath,
    entries: Vec<ArchiveEntry>,
    depth: nat,
    acc: Seq<AssetView>,
)
    requires
        lower_ext_or_empty(path@) == "zip"@ || lower_ext_or_empty(path@) == "cbz"@,
        !exts.contains(lower_ext_or_empty(path@)),
    ensures
        scan_entries(
            exts,
            max_depth,
            recursive,
            before.push(FsNode::File { path, archive: Some(entries) }),
            depth,
            acc,
        ) == scan_entries(exts, max_depth, recursive, before, depth, acc) + entries@.filter(
            entry_taken(exts),
        ).map_values(entry_asset(path@)),
{
    let all = before.push(FsNode::File { path, archive: Some(entries) });
    assert(all.subrange(0, all.len() - 1) =~= before);
    lemma_archive_assets_filter(exts, path@, entries@);
}

} // verus!
