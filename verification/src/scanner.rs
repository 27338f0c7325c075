//! Selection of the files that a directory walk lists.
use vstd::prelude::*;

use crate::kinds::{is_media_path, media_path};
use crate::paths::{file_name, MPath, PathView};

verus! {

/// One entry of a directory walk, as `walkdir` yields it.
pub struct WalkEntry {
    /// The entry's path.
    pub path: MPath,
    /// Distance from the walk's root (the root itself is at depth 0).
    pub depth: usize,
    /// The entry itself is a regular file (symbolic links not followed).
    pub is_file: bool,
    /// The path leads to a regular file (symbolic links followed).
    pub leads_to_file: bool,
}

/// The views of a list of paths.
pub open spec fn paths_view(ps: Seq<MPath>) -> Seq<PathView> {
    ps.map_values(|p: MPath| p@)
}

/// The entries a walk bounded by `max_depth` yields.
pub open spec fn reached(e: WalkEntry, max_depth: nat) -> bool {
    e.depth <= max_depth
}

/// The paths of the walked entries within `max_depth` that are regular files
/// and, when `media_only`, carry a supported media extension; in walk order.
pub open spec fn kept_files(es: Seq<WalkEntry>, max_depth: nat, media_only: bool) -> Seq<PathView>
    decreases es.len(),
{
    if es.len() == 0 {
        Seq::empty()
    } else {
        let rest = kept_files(es.drop_last(), max_depth, media_only);
        let e = es.last();
        if reached(e, max_depth) && e.is_file && (!media_only || is_media_path(e.path@)) {
            rest.push(e.path@)
        } else {
            rest
        }
    }
}

/// Recursively scans directories for supported media files.
pub struct Scanner {
    /// Maximum recursion depth for directory traversal.
    pub max_depth: usize,
}

impl Scanner {
    /// Creates a new scanner with the specified maximum depth.
    pub fn new(max_depth: usize) -> (s: Scanner)
        ensures
            s.max_depth == max_depth,
    {
        Scanner { max_depth }
    }

    /// The files of a walk that this scanner keeps.
    fn select<F: Fn(&MPath)>(&self, entries: &Vec<WalkEntry>, media_only: bool, callback: &F) -> (r: Vec<MPath>)
        requires
            forall|p: &MPath| call_requires(*callback, (p,)),
        ensures
            paths_view(r@) == kept_files(entries@, self.max_depth as nat, media_only),
    {
        let mut r: Vec<MPath> = Vec::new();
        let n = entries.len();
        let mut i: usize = 0;
        while i < n
            invariant
                n == entries@.len(),
                i <= n,
                forall|p: &MPath| call_requires(*callback, (p,)),
                paths_view(r@) == kept_files(entries@.take(i as int), self.max_depth as nat, media_only),
            decreases n - i,
        {
            let e = &entries[i];
            assert(entries@.take(i + 1).drop_last() =~= entries@.take(i as int));
            if e.depth <= self.max_depth {
                callback(&e.path);
                if e.is_file && (!media_only || media_path(&e.path)) {
                    let ghost before = r@;
                    r.push(e.path.duplicate());
                    assert(paths_view(r@) =~= paths_view(before).push(e.path@));
                }
            }
            i = i + 1;
        }
        assert(entries@.take(n as int) =~= entries@);
        r
    }

    /// Scans a walk for supported media files, calling `callback` on every
    /// entry within the depth limit.
    pub fn scan_with_callback<F: Fn(&MPath)>(&self, entries: &Vec<WalkEntry>, callback: F) -> (r: Vec<MPath>)
        requires
            forall|p: &MPath| call_requires(callback, (p,)),
        ensures
            paths_view(r@) == kept_files(entries@, self.max_depth as nat, true),
    {
        self.select(entries, true, &callback)
    }

    /// Scans a walk for supported media files.
    pub fn scan(&self, entries: &Vec<WalkEntry>) -> (r: Vec<MPath>)
        ensures
            paths_view(r@) == kept_files(entries@, self.max_depth as nat, true),
    {
        self.select(entries, true, &|_p: &MPath| {})
    }

    /// Scans a walk for all files, calling `callback` on every entry within
    /// the depth limit.
    pub fn scan_all_with_callback<F: Fn(&MPath)>(&self, entries: &Vec<WalkEntry>, callback: F) -> (r: Vec<MPath>)
        requires
            forall|p: &MPath| call_requires(callback, (p,)),
        ensures
            paths_view(r@) == kept_files(entries@, self.max_depth as nat, false),
    {
        self.select(entries, false, &callback)
    }

    /// Scans a walk for all files.
    pub fn scan_all(&self, entries: &Vec<WalkEntry>) -> (r: Vec<MPath>)
        ensures
            paths_view(r@) == kept_files(entries@, self.max_depth as nat, false),
    {
        self.select(entries, false, &|_p: &MPath| {})
    }

    /// Scans a walk for supported media files, reporting progress: for every
    /// entry within the depth limit, `progress` gets the number of entries so
    /// far that lead to a file and the message `Scanning: <name>`.
    pub fn scan_with_progress<F: Fn(u64, String)>(&self, entries: &Vec<WalkEntry>, progress: F) -> (r: Vec<MPath>)
        requires
            forall|n: u64, m: String| call_requires(progress, (n, m)),
        ensures
            paths_view(r@) == kept_files(entries@, self.max_depth as nat, true),
    {
        let mut r: Vec<MPath> = Vec::new();
        let n = entries.len();
        let mut i: usize = 0;
        let mut items_found: u64 = 0;
        while i < n
            invariant
                n == entries@.len(),
                i <= n,
                items_found <= i,
                n <= usize::MAX,
                forall|n: u64, m: String| call_requires(progress, (n, m)),
                paths_view(r@) == kept_files(entries@.take(i as int), self.max_depth as nat, true),
            decreases n - i,
        {
            let e = &entries[i];
            assert(entries@.take(i + 1).drop_last() =~= entries@.take(i as int));
            if e.depth <= self.max_depth {
                if e.leads_to_file {
                    items_found = items_found + 1;
                }
                progress(items_found, scanning_message(&e.path));
                if e.is_file && media_path(&e.path) {
                    let ghost before = r@;
                    r.push(e.path.duplicate());
                    assert(paths_view(r@) =~= paths_view(before).push(e.path@));
                }
            }
            i = i + 1;
        }
        assert(entries@.take(n as int) =~= entries@);
        r
    }
}

/// `Scanning: ` followed by the path's file name, or by nothing.
pub open spec fn scanning_text(p: PathView) -> Seq<char> {
    "Scanning: "@ + match file_name(p) {
        Some(n) => n,
        None => Seq::empty(),
    }
}

/// The progress message for a scanned path.
pub fn scanning_message(p: &MPath) -> (m: String)
    ensures
        m@ == scanning_text(p@),
{
    let mut m = crate::text::owned("Scanning: ");
    match p.file_name() {
        Some(n) => {
            m.append(n.as_str());
        },
        None => {
            assert(m@ =~= scanning_text(p@));
        },
    }
    m
}

/// A media scan keeps a subset of what a full scan keeps, in the same order:
/// it is the full scan restricted to media files.
pub proof fn law_media_scan_within_full_scan(es: Seq<WalkEntry>, max_depth: nat)
    ensures
        kept_files(es, max_depth, true) == kept_files(es, max_depth, false).filter(
            |p: PathView| is_media_path(p),
        ),
    decreases es.len(),
{
    reveal_with_fuel(Seq::filter, 1);
    if es.len() > 0 {
        law_media_scan_within_full_scan(es.drop_last(), max_depth);
        let all = kept_files(es.drop_last(), max_depth, false);
        let e = es.last();
        if reached(e, max_depth) && e.is_file {
            assert(all.push(e.path@).drop_last() =~= all);
        }
    }
}

} // verus!
