use vstd::prelude::*;
use crate::pattern::{pattern_matches, Pattern};
use crate::size::{sat_add, FileSize};

verus! {

/// One entry of a directory listing, as the filesystem reported it.
pub enum Entry {
    /// The entry's metadata could not be read (most often a dangling symlink).
    Unavailable { path: String },
    /// A regular file of `len` bytes.
    File { path: String, len: u64 },
    /// A directory; `contents` is `None` when it could not be listed.
    Dir { path: String, contents: Option<Vec<Entry>> },
    /// Anything else (a socket, a device, ...).
    Other { path: String },
}

/// A node of the result: a file, or a directory with the children kept.
pub struct FileTree {
    pub path: String,
    pub file_size: FileSize,
    pub depth: u8,
    pub children: Vec<FileTree>,
}

#[derive(Clone, Copy, Debug, PartialEq, Eq, Structural)]
pub enum WarningKind {
    /// An entry whose metadata could not be read was skipped.
    Symlink,
    /// A directory could not be listed.
    PermissionDenied,
}

/// A diagnostic produced during a scan, naming the path concerned.
#[derive(Debug, PartialEq, Eq)]
pub struct Warning {
    pub kind: WarningKind,
    pub path: String,
}

/// A scan's result: the tree and, unless silenced, the warnings in the order
/// the walk met them.
pub struct Scan {
    pub tree: FileTree,
    pub warnings: Vec<Warning>,
}

pub open spec fn warnings_view(ws: Seq<Warning>) -> Seq<(WarningKind, Seq<char>)> {
    ws.map_values(|w: Warning| (w.kind, w.path@))
}

pub open spec fn entry_path(e: Entry) -> Seq<char> {
    match e {
        Entry::Unavailable { path } => path@,
        Entry::File { path, .. } => path@,
        Entry::Dir { path, .. } => path@,
        Entry::Other { path } => path@,
    }
}

/// Whether the exclusion pattern (given by its source) matches the path.
pub open spec fn excluded(ex: Option<Seq<char>>, path: Seq<char>) -> bool {
    match ex {
        Some(src) => pattern_matches(src, path),
        None => false,
    }
}

pub open spec fn pattern_source(p: Option<&Pattern>) -> Option<Seq<char>> {
    match p {
        Some(p) => Some(p.source_text()),
        None => None,
    }
}

/// Whether a size passes the minimum-size threshold, if there is one.
pub open spec fn passes(min: Option<u64>, size: nat) -> bool {
    match min {
        Some(b) => size >= b,
        None => true,
    }
}

/// The size of the node an entry would become: a file's length, or the
/// aggregate of a directory's kept children.
pub open spec fn entry_size(e: Entry, min: Option<u64>, ex: Option<Seq<char>>) -> nat
    decreases e, 1nat,
{
    match e {
        Entry::File { len, .. } => len as nat,
        Entry::Dir { contents, .. } => listing_size(contents, min, ex),
        _ => 0,
    }
}

/// Whether an entry becomes a child node: it is not excluded, it is a file or
/// a directory, and its size passes the threshold.
pub open spec fn entry_kept(e: Entry, min: Option<u64>, ex: Option<Seq<char>>) -> bool
    decreases e, 2nat,
{
    !excluded(ex, entry_path(e)) && match e {
        Entry::File { .. } => passes(min, entry_size(e, min, ex)),
        Entry::Dir { .. } => passes(min, entry_size(e, min, ex)),
        _ => false,
    }
}

/// What the first `n` entries of a listing add to its aggregate size.
pub open spec fn prefix_size(es: Seq<Entry>, n: int, min: Option<u64>, ex: Option<Seq<char>>) -> nat
    decreases es, n,
{
    if n <= 0 || n > es.len() {
        0
    } else {
        sat_add(
            prefix_size(es, n - 1, min, ex),
            if entry_kept(es[n - 1], min, ex) {
                entry_size(es[n - 1], min, ex)
            } else {
                0
            },
        )
    }
}

/// The aggregate size of a directory: the saturating sum of its kept
/// entries' sizes; zero when it cannot be listed.
pub open spec fn listing_size(c: Option<Vec<Entry>>, min: Option<u64>, ex: Option<Seq<char>>) -> nat
    decreases c, 0nat,
{
    match c {
        None => 0,
        Some(v) => prefix_size(v@, v@.len() as int, min, ex),
    }
}

/// `t` is the node built for directory `path` with listing `c` at `depth`.
pub open spec fn tree_of(
    t: FileTree,
    path: Seq<char>,
    c: Option<Vec<Entry>>,
    depth: int,
    min: Option<u64>,
    ex: Option<Seq<char>>,
) -> bool
    decreases c, 0nat,
{
    &&& t.path@ == path
    &&& t.depth == depth
    &&& t.file_size.bytes == listing_size(c, min, ex)
    &&& match c {
        None => t.children@.len() == 0,
        Some(v) => kids_of(t.children@, v@, v@.len() as int, depth + 1, min, ex),
    }
}

/// `kids` are the nodes built, in order, from the kept entries among the
/// first `n` of `es`, at `depth`.
pub open spec fn kids_of(
    kids: Seq<FileTree>,
    es: Seq<Entry>,
    n: int,
    depth: int,
    min: Option<u64>,
    ex: Option<Seq<char>>,
) -> bool
    decreases es, n,
{
    if n <= 0 || n > es.len() {
        kids.len() == 0
    } else if entry_kept(es[n - 1], min, ex) {
        &&& kids.len() > 0
        &&& node_of(kids.last(), es[n - 1], depth, min, ex)
        &&& kids_of(kids.drop_last(), es, n - 1, depth, min, ex)
    } else {
        kids_of(kids, es, n - 1, depth, min, ex)
    }
}

/// `t` is the node built from entry `e` at `depth`.
pub open spec fn node_of(t: FileTree, e: Entry, depth: int, min: Option<u64>, ex: Option<Seq<char>>) -> bool
    decreases e, 0nat,
{
    match e {
        Entry::File { path, len } => {
            &&& t.path@ == path@
            &&& t.depth == depth
            &&& t.file_size.bytes == len
            &&& t.children@.len() == 0
        },
        Entry::Dir { path, contents } => tree_of(t, path@, contents, depth, min, ex),
        _ => false,
    }
}

/// The warnings a walk of directory `path` with listing `c` produces.
pub open spec fn listing_warnings(path: Seq<char>, c: Option<Vec<Entry>>, ex: Option<Seq<char>>) -> Seq<
    (WarningKind, Seq<char>),
>
    decreases c, 0nat,
{
    match c {
        None => seq![(WarningKind::PermissionDenied, path)],
        Some(v) => prefix_warnings(v@, v@.len() as int, ex),
    }
}

pub open spec fn prefix_warnings(es: Seq<Entry>, n: int, ex: Option<Seq<char>>) -> Seq<
    (WarningKind, Seq<char>),
>
    decreases es, n,
{
    if n <= 0 || n > es.len() {
        seq![]
    } else {
        prefix_warnings(es, n - 1, ex) + entry_warnings(es[n - 1], ex)
    }
}

pub open spec fn entry_warnings(e: Entry, ex: Option<Seq<char>>) -> Seq<(WarningKind, Seq<char>)>
    decreases e, 0nat,
{
    if excluded(ex, entry_path(e)) {
        seq![]
    } else {
        match e {
            Entry::Unavailable { path } => seq![(WarningKind::Symlink, path@)],
            Entry::Dir { path, contents } => listing_warnings(path@, contents, ex),
            _ => seq![],
        }
    }
}

/// Every node a walk of `c` from `depth` creates has a depth that fits in a `u8`.
pub open spec fn depth_fits(c: Option<Vec<Entry>>, depth: int) -> bool
    decreases c, 0nat,
{
    match c {
        None => true,
        Some(v) => prefix_fits(v@, v@.len() as int, depth),
    }
}

pub open spec fn prefix_fits(es: Seq<Entry>, n: int, depth: int) -> bool
    decreases es, n,
{
    if n <= 0 || n > es.len() {
        true
    } else {
        prefix_fits(es, n - 1, depth) && entry_fits(es[n - 1], depth)
    }
}

pub open spec fn entry_fits(e: Entry, depth: int) -> bool
    decreases e, 0nat,
{
    &&& depth + 1 <= u8::MAX
    &&& match e {
        Entry::Dir { contents, .. } => depth_fits(contents, depth + 1),
        _ => true,
    }
}


fn excluded_exec(exclude: Option<&Pattern>, path: &String) -> (r: bool)
    ensures
        r == excluded(pattern_source(exclude), path@),
{
    match exclude {
        Some(p) => p.is_match(path.as_str()),
        None => false,
    }
}

fn passes_exec(min_bytes: Option<u64>, size: FileSize) -> (r: bool)
    ensures
        r == passes(min_bytes, size.bytes as nat),
{
    match min_bytes {
        Some(b) => size.at_least(FileSize::new(b)),
        None => true,
    }
}

/// Walks the listing `contents` of directory `root`, skipping entries whose
/// path matches `exclude`, and builds its node at `depth`. Warnings are
/// appended to `warnings` unless `silent`.
fn build(
    root: &String,
    contents: &Option<Vec<Entry>>,
    depth: u8,
    min_bytes: Option<u64>,
    exclude: Option<&Pattern>,
    silent: bool,
    warnings: &mut Vec<Warning>,
) -> (t: FileTree)
    requires
        depth_fits(*contents, depth as int),
    ensures
        tree_of(t, root@, *contents, depth as int, min_bytes, pattern_source(exclude)),
        warnings_view(final(warnings)@) == warnings_view(old(warnings)@) + (if silent {
            seq![]
        } else {
            listing_warnings(root@, *contents, pattern_source(exclude))
        }),
    decreases *contents,
{
    broadcast use vstd::std_specs::vec::group_vec_axioms, vstd::seq::group_seq_axioms;

    let ghost ex = pattern_source(exclude);
    match contents {
        None => {
            if !silent {
                warnings.push(Warning { kind: WarningKind::PermissionDenied, path: root.clone() });
            }
            proof {
                if !silent {
                    assert(warnings_view(warnings@) =~= warnings_view(old(warnings)@) + seq![
                        (WarningKind::PermissionDenied, root@),
                    ]);
                } else {
                    assert(warnings_view(warnings@) =~= warnings_view(old(warnings)@) + seq![]);
                }
            }
            FileTree { path: root.clone(), file_size: FileSize::new(0), depth, children: Vec::new() }
        },
        Some(v) => {
            let mut kids: Vec<FileTree> = Vec::new();
            let mut total = FileSize::new(0);
            let mut i: usize = 0;
            while i < v.len()
                invariant
                    i <= v.len(),
                    *contents == Some(*v),
                    ex == pattern_source(exclude),
                    prefix_fits(v@, v@.len() as int, depth as int),
                    total.bytes == prefix_size(v@, i as int, min_bytes, ex),
                    kids_of(kids@, v@, i as int, depth + 1, min_bytes, ex),
                    warnings_view(warnings@) == warnings_view(old(warnings)@) + (if silent {
                        seq![]
                    } else {
                        prefix_warnings(v@, i as int, ex)
                    }),
                decreases v.len() - i,
            {
                proof {
                    lemma_prefix_fits(v@, v@.len() as int, depth as int, i as int);
                }
                let ghost before = warnings@;
                let ghost kids_before = kids@;
                let e = &v[i];
                let next: u8 = depth + 1;
                if !excluded_exec(exclude, entry_path_exec(e)) {
                    match e {
                        Entry::Unavailable { path } => {
                            if !silent {
                                warnings.push(Warning { kind: WarningKind::Symlink, path: path.clone() });
                            }
                        },
                        Entry::File { path, len } => {
                            let s = FileSize::new(*len);
                            if passes_exec(min_bytes, s) {
                                kids.push(FileTree { path: path.clone(), file_size: s, depth: next, children: Vec::new() });
                                total.add(s);
                            }
                        },
                        Entry::Dir { path, contents: sub } => {
                            proof {
                                let ghost c = *contents;
                                assert(decreases_to!(c => c->Some_0));
                                assert(decreases_to!(*v => v@));
                                assert(decreases_to!(v@ => v@[i as int]));
                                assert(decreases_to!(v@[i as int] => *sub));
                            }
                            let t = build(path, sub, next, min_bytes, exclude, silent, warnings);
                            let s = t.file_size;
                            if passes_exec(min_bytes, s) {
                                kids.push(t);
                                total.add(s);
                            }
                        },
                        Entry::Other { .. } => {},
                    }
                }
                proof {
                    if entry_kept(v@[i as int], min_bytes, ex) {
                        assert(kids@.len() == kids_before.len() + 1);
                        assert(kids@.drop_last() =~= kids_before);
                        assert(node_of(kids@.last(), v@[i as int], depth + 1, min_bytes, ex));
                    } else {
                        assert(kids@ == kids_before);
                    }
                    assert(kids_of(kids@, v@, i + 1, depth + 1, min_bytes, ex));
                    if silent {
                        assert(warnings_view(warnings@) =~= warnings_view(before));
                    } else {
                        assert(warnings_view(warnings@) =~= warnings_view(before) + entry_warnings(v@[i as int], ex));
                    }
                    assert(prefix_warnings(v@, i + 1, ex) == prefix_warnings(v@, i as int, ex) + entry_warnings(v@[i as int], ex));
                    if silent {
                        assert(warnings_view(warnings@) =~= warnings_view(old(warnings)@) + seq![]);
                    } else {
                        assert(warnings_view(warnings@) =~= warnings_view(old(warnings)@) + prefix_warnings(v@, i + 1, ex));
                    }
                }
                i = i + 1;
            }
            FileTree { path: root.clone(), file_size: total, depth, children: kids }
        },
    }
}

fn entry_path_exec(e: &Entry) -> (r: &String)
    ensures
        r@ == entry_path(*e),
{
    match e {
        Entry::Unavailable { path } => path,
        Entry::File { path, .. } => path,
        Entry::Dir { path, .. } => path,
        Entry::Other { path } => path,
    }
}

proof fn lemma_prefix_fits(es: Seq<Entry>, n: int, depth: int, i: int)
    requires
        prefix_fits(es, n, depth),
        0 <= i < n <= es.len(),
    ensures
        entry_fits(es[i], depth),
    decreases n,
{
    if i < n - 1 {
        lemma_prefix_fits(es, n - 1, depth, i);
    }
}


/// Builds the tree of directory `root` from its listing `contents`, with the
/// root node at `depth` and its entries one level deeper. With `min_bytes`,
/// any file or directory whose (aggregate) size is below it is left out, with
/// all it holds. Warnings are collected unless `silent`.
pub fn read_files(root: &String, contents: &Option<Vec<Entry>>, depth: u8, min_bytes: Option<u64>, silent: bool) -> (r:
    Scan)
    requires
        depth_fits(*contents, depth as int),
    ensures
        tree_of(r.tree, root@, *contents, depth as int, min_bytes, None),
        warnings_view(r.warnings@) == (if silent {
            seq![]
        } else {
            listing_warnings(root@, *contents, None)
        }),
{
    let mut warnings: Vec<Warning> = Vec::new();
    let tree = build(root, contents, depth, min_bytes, None, silent, &mut warnings);
    assert(warnings_view(Seq::<Warning>::empty()) =~= seq![]);
    proof {
        if silent {
            assert(warnings_view(warnings@) =~= seq![]);
        } else {
            assert(warnings_view(warnings@) =~= listing_warnings(root@, *contents, None));
        }
    }
    Scan { tree, warnings }
}

/// As `read_files`, but every entry whose full path `regex` matches is
/// skipped at every depth: no node, no size, no warning, no descent.
pub fn read_files_regex(
    root: &String,
    contents: &Option<Vec<Entry>>,
    depth: u8,
    min_bytes: Option<u64>,
    regex: &Pattern,
    silent: bool,
) -> (r: Scan)
    requires
        depth_fits(*contents, depth as int),
    ensures
        tree_of(r.tree, root@, *contents, depth as int, min_bytes, Some(regex.source_text())),
        warnings_view(r.warnings@) == (if silent {
            seq![]
        } else {
            listing_warnings(root@, *contents, Some(regex.source_text()))
        }),
{
    let mut warnings: Vec<Warning> = Vec::new();
    let tree = build(root, contents, depth, min_bytes, Some(regex), silent, &mut warnings);
    assert(warnings_view(Seq::<Warning>::empty()) =~= seq![]);
    proof {
        if silent {
            assert(warnings_view(warnings@) =~= seq![]);
        } else {
            assert(warnings_view(warnings@) =~= listing_warnings(root@, *contents, Some(regex.source_text())));
        }
    }
    Scan { tree, warnings }
}

/// Whether a walk of `contents` from `depth` keeps every node's depth within
/// a `u8`, which `read_files` and `read_files_regex` require.
pub fn depth_fits_in(contents: &Option<Vec<Entry>>, depth: u8) -> (r: bool)
    ensures
        r == depth_fits(*contents, depth as int),
    decreases *contents,
{
    broadcast use vstd::std_specs::vec::group_vec_axioms, vstd::seq::group_seq_axioms;

    match contents {
        None => true,
        Some(v) => {
            let mut i: usize = 0;
            while i < v.len()
                invariant
                    i <= v.len(),
                    *contents == Some(*v),
                    prefix_fits(v@, i as int, depth as int),
                decreases v.len() - i,
            {
                if depth == u8::MAX {
                    proof {
                        lemma_prefix_fits_grows(v@, i as int + 1, v@.len() as int, depth as int);
                    }
                    return false;
                }
                let e = &v[i];
                if let Entry::Dir { contents: sub, .. } = e {
                    proof {
                        let ghost c = *contents;
                        assert(decreases_to!(c => c->Some_0));
                        assert(decreases_to!(*v => v@));
                        assert(decreases_to!(v@ => v@[i as int]));
                        assert(decreases_to!(v@[i as int] => *sub));
                    }
                    if !depth_fits_in(sub, depth + 1) {
                        proof {
                            lemma_prefix_fits_grows(v@, i as int + 1, v@.len() as int, depth as int);
                        }
                        return false;
                    }
                }
                assert(entry_fits(v@[i as int], depth as int));
                assert(prefix_fits(v@, i + 1, depth as int));
                i = i + 1;
            }
            true
        },
    }
}

/// A walk that fits on a longer prefix fits on every entry of it.
proof fn lemma_prefix_fits_grows(es: Seq<Entry>, k: int, n: int, depth: int)
    requires
        0 < k <= n <= es.len(),
        !entry_fits(es[k - 1], depth),
    ensures
        !prefix_fits(es, n, depth),
    decreases n,
{
    if k < n {
        lemma_prefix_fits_grows(es, k, n - 1, depth);
    }
}

} // verus!
