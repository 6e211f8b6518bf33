use vstd::prelude::*;
use crate::pattern::pattern_matches;
use crate::scan::{entry_warnings, excluded, listing_warnings, prefix_warnings, entry_kept, entry_path, entry_size, kids_of, listing_size, node_of, prefix_size, tree_of, Entry, FileTree};
use crate::size::sat_add;

verus! {

broadcast use vstd::std_specs::vec::group_vec_axioms, vstd::seq::group_seq_axioms;

/// The saturating sum of the sizes of `kids`.
pub open spec fn sum_sizes(kids: Seq<FileTree>) -> nat
    decreases kids.len(),
{
    if kids.len() == 0 {
        0
    } else {
        sat_add(sum_sizes(kids.drop_last()), kids.last().file_size.bytes as nat)
    }
}

/// Every node of `t` that has children carries the sum of their sizes.
pub open spec fn sizes_add_up(t: FileTree) -> bool
    decreases t, 0nat,
{
    &&& (t.children@.len() > 0 ==> t.file_size.bytes == sum_sizes(t.children@))
    &&& all_add_up(t.children@)
}

pub open spec fn all_add_up(kids: Seq<FileTree>) -> bool
    decreases kids, 0nat,
{
    if kids.len() == 0 {
        true
    } else {
        all_add_up(kids.subrange(0, kids.len() - 1)) && sizes_add_up(kids[kids.len() - 1])
    }
}

/// `t` sits at `depth`, and each node below one level deeper than its parent.
pub open spec fn depths_from(t: FileTree, depth: int) -> bool
    decreases t, 0nat,
{
    &&& t.depth == depth
    &&& all_depths_from(t.children@, depth + 1)
}

pub open spec fn all_depths_from(kids: Seq<FileTree>, depth: int) -> bool
    decreases kids, 0nat,
{
    if kids.len() == 0 {
        true
    } else {
        all_depths_from(kids.subrange(0, kids.len() - 1), depth) && depths_from(kids[kids.len() - 1], depth)
    }
}

/// Every node in `kids` and below has a size of at least `b`.
pub open spec fn sizes_at_least(kids: Seq<FileTree>, b: u64) -> bool
    decreases kids, 0nat,
{
    if kids.len() == 0 {
        true
    } else {
        let t = kids[kids.len() - 1];
        &&& sizes_at_least(kids.subrange(0, kids.len() - 1), b)
        &&& t.file_size.bytes >= b
        &&& sizes_at_least(t.children@, b)
    }
}

/// No node in `kids` or below has a path that the pattern `src` matches.
pub open spec fn paths_avoid(kids: Seq<FileTree>, src: Seq<char>) -> bool
    decreases kids, 0nat,
{
    if kids.len() == 0 {
        true
    } else {
        let t = kids[kids.len() - 1];
        &&& paths_avoid(kids.subrange(0, kids.len() - 1), src)
        &&& !pattern_matches(src, t.path@)
        &&& paths_avoid(t.children@, src)
    }
}

/// What holds of every tree the walk builds, for any threshold and pattern.
pub open spec fn shape_holds(t: FileTree, depth: int, min: Option<u64>, ex: Option<Seq<char>>) -> bool {
    &&& sizes_add_up(t)
    &&& depths_from(t, depth)
    &&& (min matches Some(b) ==> sizes_at_least(t.children@, b))
    &&& (ex matches Some(src) ==> paths_avoid(t.children@, src))
}

proof fn lemma_prefix_size_bounded(es: Seq<Entry>, n: int, min: Option<u64>, ex: Option<Seq<char>>)
    ensures
        prefix_size(es, n, min, ex) <= u64::MAX,
{
}

proof fn lemma_tree_shape(
    t: FileTree,
    path: Seq<char>,
    c: Option<Vec<Entry>>,
    depth: int,
    min: Option<u64>,
    ex: Option<Seq<char>>,
)
    requires
        tree_of(t, path, c, depth, min, ex),
    ensures
        shape_holds(t, depth, min, ex),
        t.file_size.bytes == sum_sizes(t.children@),
    decreases c, 0nat,
{
    match c {
        None => {
            assert(t.children@.len() == 0);
        },
        Some(v) => {
            assert(decreases_to!(c => c->Some_0));
            lemma_kids_shape(t.children@, v@, v@.len() as int, depth + 1, min, ex);
        },
    }
}

proof fn lemma_node_shape(t: FileTree, e: Entry, depth: int, min: Option<u64>, ex: Option<Seq<char>>)
    requires
        node_of(t, e, depth, min, ex),
    ensures
        shape_holds(t, depth, min, ex),
        t.file_size.bytes == entry_size(e, min, ex),
        t.path@ == entry_path(e),
    decreases e, 0nat,
{
    match e {
        Entry::Dir { path, contents } => {
            lemma_tree_shape(t, path@, contents, depth, min, ex);
        },
        _ => {},
    }
}

proof fn lemma_kids_shape(
    kids: Seq<FileTree>,
    es: Seq<Entry>,
    n: int,
    depth: int,
    min: Option<u64>,
    ex: Option<Seq<char>>,
)
    requires
        kids_of(kids, es, n, depth, min, ex),
    ensures
        sum_sizes(kids) == prefix_size(es, n, min, ex),
        all_add_up(kids),
        all_depths_from(kids, depth),
        min matches Some(b) ==> sizes_at_least(kids, b),
        ex matches Some(src) ==> paths_avoid(kids, src),
    decreases es, n,
{
    if n <= 0 || n > es.len() {
    } else {
        lemma_prefix_size_bounded(es, n - 1, min, ex);
        assert(decreases_to!(es => es[n - 1]));
        if entry_kept(es[n - 1], min, ex) {
            let rest = kids.drop_last();
            assert(kids.subrange(0, kids.len() - 1) == rest);
            lemma_kids_shape(rest, es, n - 1, depth, min, ex);
            lemma_node_shape(kids.last(), es[n - 1], depth, min, ex);
        } else {
            lemma_kids_shape(kids, es, n - 1, depth, min, ex);
        }
    }
}

/// Every directory node's size is the saturating sum of its children's
/// sizes, down to the files, whose nodes carry their byte length and have no
/// children. The root carries the sum of its children too.
pub proof fn lemma_sizes_consistent(
    t: FileTree,
    path: Seq<char>,
    c: Option<Vec<Entry>>,
    depth: int,
    min: Option<u64>,
    ex: Option<Seq<char>>,
)
    requires
        tree_of(t, path, c, depth, min, ex),
    ensures
        t.file_size.bytes == sum_sizes(t.children@),
        sizes_add_up(t),
{
    lemma_tree_shape(t, path, c, depth, min, ex);
}

/// With a threshold `b`, every node below the root has a size of at least `b`.
pub proof fn lemma_threshold_respected(
    t: FileTree,
    path: Seq<char>,
    c: Option<Vec<Entry>>,
    depth: int,
    b: u64,
    ex: Option<Seq<char>>,
)
    requires
        tree_of(t, path, c, depth, Some(b), ex),
    ensures
        sizes_at_least(t.children@, b),
{
    lemma_tree_shape(t, path, c, depth, Some(b), ex);
}

/// No node below the root has a path that the exclusion pattern matches, at
/// any depth.
pub proof fn lemma_excluded_absent(
    t: FileTree,
    path: Seq<char>,
    c: Option<Vec<Entry>>,
    depth: int,
    min: Option<u64>,
    src: Seq<char>,
)
    requires
        tree_of(t, path, c, depth, min, Some(src)),
    ensures
        paths_avoid(t.children@, src),
{
    lemma_tree_shape(t, path, c, depth, min, Some(src));
}

/// The root sits at the depth the caller gave, and each node one level below
/// its parent.
pub proof fn lemma_depths_step_by_one(
    t: FileTree,
    path: Seq<char>,
    c: Option<Vec<Entry>>,
    depth: int,
    min: Option<u64>,
    ex: Option<Seq<char>>,
)
    requires
        tree_of(t, path, c, depth, min, ex),
    ensures
        depths_from(t, depth),
{
    lemma_tree_shape(t, path, c, depth, min, ex);
}


proof fn lemma_entry_size_monotone(e: Entry, b: u64, ex: Option<Seq<char>>)
    ensures
        entry_size(e, Some(b), ex) <= entry_size(e, None, ex),
        entry_kept(e, Some(b), ex) ==> entry_kept(e, None, ex),
    decreases e, 0nat,
{
    if let Entry::Dir { contents, .. } = e {
        lemma_listing_size_monotone(contents, b, ex);
    }
}

proof fn lemma_prefix_size_monotone(es: Seq<Entry>, n: int, b: u64, ex: Option<Seq<char>>)
    ensures
        prefix_size(es, n, Some(b), ex) <= prefix_size(es, n, None, ex),
    decreases es, n,
{
    if 0 < n <= es.len() {
        assert(decreases_to!(es => es[n - 1]));
        lemma_prefix_size_monotone(es, n - 1, b, ex);
        lemma_entry_size_monotone(es[n - 1], b, ex);
    }
}

/// A minimum-size threshold never makes a directory's aggregate size larger
/// than the walk without one would.
pub proof fn lemma_listing_size_monotone(c: Option<Vec<Entry>>, b: u64, ex: Option<Seq<char>>)
    ensures
        listing_size(c, Some(b), ex) <= listing_size(c, None, ex),
    decreases c, 0nat,
{
    if let Some(v) = c {
        assert(decreases_to!(c => c->Some_0));
        lemma_prefix_size_monotone(v@, v@.len() as int, b, ex);
    }
}

/// A minimum-size threshold never makes the size of any entry's node larger
/// than the walk without one would, and keeps no entry that the walk without
/// one would drop.
pub proof fn lemma_threshold_never_increases(e: Entry, b: u64, ex: Option<Seq<char>>)
    ensures
        entry_size(e, Some(b), ex) <= entry_size(e, None, ex),
        entry_kept(e, Some(b), ex) ==> entry_kept(e, None, ex),
{
    lemma_entry_size_monotone(e, b, ex);
}

proof fn lemma_sizes_at_least_index(kids: Seq<FileTree>, b: u64, j: int)
    requires
        sizes_at_least(kids, b),
        0 <= j < kids.len(),
    ensures
        kids[j].file_size.bytes >= b,
    decreases kids.len(),
{
    if j < kids.len() - 1 {
        let rest = kids.subrange(0, kids.len() - 1);
        lemma_sizes_at_least_index(rest, b, j);
        assert(rest[j] == kids[j]);
    }
}

/// With a threshold `b`, a listed entry whose aggregate size is below `b` is
/// dropped whole: no child of the directory is the node built from it, and no
/// node of its subtree is anywhere else either, since every node kept has a
/// size of at least `b`.
pub proof fn lemma_small_subtree_absent(
    t: FileTree,
    path: Seq<char>,
    v: Vec<Entry>,
    depth: int,
    b: u64,
    ex: Option<Seq<char>>,
    i: int,
)
    requires
        tree_of(t, path, Some(v), depth, Some(b), ex),
        0 <= i < v@.len(),
        entry_size(v@[i], Some(b), ex) < b,
    ensures
        !entry_kept(v@[i], Some(b), ex),
        forall|j: int|
            0 <= j < t.children@.len() ==> !node_of(#[trigger] t.children@[j], v@[i], depth + 1, Some(b), ex),
        sizes_at_least(t.children@, b),
{
    lemma_tree_shape(t, path, Some(v), depth, Some(b), ex);
    assert forall|j: int| 0 <= j < t.children@.len() implies !node_of(
        #[trigger] t.children@[j],
        v@[i],
        depth + 1,
        Some(b),
        ex,
    ) by {
        lemma_sizes_at_least_index(t.children@, b, j);
        if node_of(t.children@[j], v@[i], depth + 1, Some(b), ex) {
            lemma_node_shape(t.children@[j], v@[i], depth + 1, Some(b), ex);
        }
    }
}

/// An entry whose path the exclusion pattern matches adds nothing to its
/// directory: no node, no size, and no warning from it or anything below it.
pub proof fn lemma_excluded_contributes_nothing(e: Entry, min: Option<u64>, src: Seq<char>)
    requires
        pattern_matches(src, entry_path(e)),
    ensures
        !entry_kept(e, min, Some(src)),
        entry_warnings(e, Some(src)) == Seq::<(crate::scan::WarningKind, Seq<char>)>::empty(),
{
}

proof fn lemma_same_entry_size(e: Entry, min: Option<u64>, src: Seq<char>)
    requires
        forall|p: Seq<char>| !pattern_matches(src, p),
    ensures
        entry_size(e, min, Some(src)) == entry_size(e, min, None),
        entry_kept(e, min, Some(src)) == entry_kept(e, min, None),
    decreases e, 0nat,
{
    if let Entry::Dir { contents, .. } = e {
        lemma_same_listing_size(contents, min, src);
    }
}

proof fn lemma_same_prefix_size(es: Seq<Entry>, n: int, min: Option<u64>, src: Seq<char>)
    requires
        forall|p: Seq<char>| !pattern_matches(src, p),
    ensures
        prefix_size(es, n, min, Some(src)) == prefix_size(es, n, min, None),
    decreases es, n,
{
    if 0 < n <= es.len() {
        assert(decreases_to!(es => es[n - 1]));
        lemma_same_prefix_size(es, n - 1, min, src);
        lemma_same_entry_size(es[n - 1], min, src);
    }
}

proof fn lemma_same_listing_size(c: Option<Vec<Entry>>, min: Option<u64>, src: Seq<char>)
    requires
        forall|p: Seq<char>| !pattern_matches(src, p),
    ensures
        listing_size(c, min, Some(src)) == listing_size(c, min, None),
    decreases c, 0nat,
{
    if let Some(v) = c {
        assert(decreases_to!(c => c->Some_0));
        lemma_same_prefix_size(v@, v@.len() as int, min, src);
    }
}

proof fn lemma_same_tree(t: FileTree, path: Seq<char>, c: Option<Vec<Entry>>, depth: int, min: Option<u64>, src: Seq<char>)
    requires
        forall|p: Seq<char>| !pattern_matches(src, p),
    ensures
        tree_of(t, path, c, depth, min, Some(src)) == tree_of(t, path, c, depth, min, None),
    decreases c, 0nat,
{
    lemma_same_listing_size(c, min, src);
    if let Some(v) = c {
        assert(decreases_to!(c => c->Some_0));
        lemma_same_kids(t.children@, v@, v@.len() as int, depth + 1, min, src);
    }
}

proof fn lemma_same_node(t: FileTree, e: Entry, depth: int, min: Option<u64>, src: Seq<char>)
    requires
        forall|p: Seq<char>| !pattern_matches(src, p),
    ensures
        node_of(t, e, depth, min, Some(src)) == node_of(t, e, depth, min, None),
    decreases e, 0nat,
{
    if let Entry::Dir { path, contents } = e {
        lemma_same_tree(t, path@, contents, depth, min, src);
    }
}

proof fn lemma_same_kids(kids: Seq<FileTree>, es: Seq<Entry>, n: int, depth: int, min: Option<u64>, src: Seq<char>)
    requires
        forall|p: Seq<char>| !pattern_matches(src, p),
    ensures
        kids_of(kids, es, n, depth, min, Some(src)) == kids_of(kids, es, n, depth, min, None),
    decreases es, n,
{
    if 0 < n <= es.len() {
        assert(decreases_to!(es => es[n - 1]));
        lemma_same_entry_size(es[n - 1], min, src);
        lemma_same_kids(kids, es, n - 1, depth, min, src);
        if kids.len() > 0 {
            lemma_same_kids(kids.drop_last(), es, n - 1, depth, min, src);
            lemma_same_node(kids.last(), es[n - 1], depth, min, src);
        }
    }
}

proof fn lemma_same_entry_warnings(e: Entry, src: Seq<char>)
    requires
        forall|p: Seq<char>| !pattern_matches(src, p),
    ensures
        entry_warnings(e, Some(src)) == entry_warnings(e, None),
    decreases e, 0nat,
{
    assert(!excluded(Some(src), entry_path(e)));
    if let Entry::Dir { path, contents } = e {
        lemma_same_warnings(path@, contents, src);
    }
}

proof fn lemma_same_prefix_warnings(es: Seq<Entry>, n: int, src: Seq<char>)
    requires
        forall|p: Seq<char>| !pattern_matches(src, p),
    ensures
        prefix_warnings(es, n, Some(src)) == prefix_warnings(es, n, None),
    decreases es, n,
{
    if 0 < n <= es.len() {
        assert(decreases_to!(es => es[n - 1]));
        lemma_same_prefix_warnings(es, n - 1, src);
        lemma_same_entry_warnings(es[n - 1], src);
    }
}

proof fn lemma_same_warnings(path: Seq<char>, c: Option<Vec<Entry>>, src: Seq<char>)
    requires
        forall|p: Seq<char>| !pattern_matches(src, p),
    ensures
        listing_warnings(path, c, Some(src)) == listing_warnings(path, c, None),
    decreases c, 0nat,
{
    if let Some(v) = c {
        assert(decreases_to!(c => c->Some_0));
        lemma_same_prefix_warnings(v@, v@.len() as int, src);
    }
}

/// Walking with an exclusion pattern that matches no path gives exactly what
/// the walk without a pattern gives: the same trees and the same warnings.
pub proof fn lemma_unfiltered_is_filtered_by_nothing(
    t: FileTree,
    path: Seq<char>,
    c: Option<Vec<Entry>>,
    depth: int,
    min: Option<u64>,
    src: Seq<char>,
)
    requires
        forall|p: Seq<char>| !pattern_matches(src, p),
    ensures
        tree_of(t, path, c, depth, min, None) == tree_of(t, path, c, depth, min, Some(src)),
        listing_warnings(path, c, None) == listing_warnings(path, c, Some(src)),
{
    lemma_same_tree(t, path, c, depth, min, src);
    lemma_same_warnings(path, c, src);
}

} // verus!
