//! Bounding volume hierarchy over a list of primitives, kept as an arena of
//! nodes in which every child index is smaller than its parent's, so the
//! last node is the root. Boxes are opaque to this module: it only joins
//! them, reads order keys of their extents, and hands them to a hit test.
use vstd::prelude::*;
use crate::hits::{
    surrounds, accepted, hit_t, is_nearest, probe, probe_answer, probe_deterministic, probe_total, probes_nearest,
    roots_below, list_hit, lemma_nearest_join, lemma_list_hit_nearest, lemma_nearest_unique,
};

verus! {

/// What the hierarchy needs of a bounding box.
pub trait BoundingBox: Sized {
    /// The box that contains nothing.
    fn empty() -> Self;

    /// The smallest box holding both boxes.
    fn join(&self, other: &Self) -> Self;

    /// Order key of the lower bound on `axis` (0, 1 or 2).
    fn axis_min_key(&self, axis: usize) -> u64;

    /// Order keys of the box's extent along the three axes.
    fn size_keys(&self) -> (u64, u64, u64);
}

/// One side of a node: a primitive, or an earlier node of the arena.
#[derive(Clone, Copy, Debug)]
pub enum BvhChild {
    Prim(usize),
    Node(usize),
}

/// A node: two children and a box that holds everything below it. A leaf
/// has the same primitive on both sides.
#[derive(Debug)]
pub struct BvhNode<B> {
    pub left: BvhChild,
    pub right: BvhChild,
    pub bbox: B,
    /// Axis along which the primitives below were ordered before the split
    /// (meaningful where both children are nodes).
    pub axis: usize,
    /// Order keys of the extents of the box joined over the primitives
    /// below, from which `axis` was chosen (zero where unused).
    pub extent_keys: (u64, u64, u64),
}

/// The hierarchy: `nodes` with the root last, over primitives `0..prim_count`.
#[derive(Debug)]
pub struct BVHTree<B> {
    pub nodes: Vec<BvhNode<B>>,
    pub prim_count: usize,
    /// Order keys of the lower bounds of each primitive's box on the three
    /// axes, by which the primitives were ordered.
    pub min_keys: Vec<(u64, u64, u64)>,
}

/// Index of the axis with the largest extent, given the extents' order
/// keys. Ties go to z over y over x: x wins only when strictly larger than
/// both, y only when not smaller than x and strictly larger than z.
pub fn longest_axis(x: u64, y: u64, z: u64) -> (r: usize)
    ensures
        r == longest_of((x, y, z)),
        r == 0 <==> x > y && x > z,
        r == 1 <==> x <= y && y > z,
        r == 2 <==> (x > y && x <= z) || (x <= y && y <= z),
{
    if x > y {
        if x > z {
            0
        } else {
            2
        }
    } else if y > z {
        1
    } else {
        2
    }
}

/// Index of the longest of three extents, ties going to z over y over x.
pub open spec fn longest_of(e: (u64, u64, u64)) -> usize {
    if e.0 > e.1 && e.0 > e.2 {
        0
    } else if e.0 <= e.1 && e.1 > e.2 {
        1
    } else {
        2
    }
}

/// `c` may stand in node `k` of an arena over `n` primitives.
pub open spec fn child_ok(c: BvhChild, k: int, n: nat) -> bool {
    match c {
        BvhChild::Prim(i) => i < n,
        BvhChild::Node(j) => j < k,
    }
}

/// Every child of every node points at a primitive or at an earlier node.
pub open spec fn nodes_wf<B>(nodes: Seq<BvhNode<B>>, n: nat) -> bool {
    forall|k: int|
        0 <= k < nodes.len() ==> child_ok(#[trigger] nodes[k].left, k, n) && child_ok(
            nodes[k].right,
            k,
            n,
        )
}

/// Component `axis` of a triple of keys.
pub open spec fn key_on(k: (u64, u64, u64), axis: usize) -> u64 {
    if axis == 0 {
        k.0
    } else if axis == 1 {
        k.1
    } else {
        k.2
    }
}

/// Component `axis` of a triple of keys.
pub fn axis_key(k: (u64, u64, u64), axis: usize) -> (r: u64)
    ensures
        r == key_on(k, axis),
{
    if axis == 0 {
        k.0
    } else if axis == 1 {
        k.1
    } else {
        k.2
    }
}

/// Node `k`, if both its children are nodes, splits its primitives at the
/// midpoint along the longest of its recorded extents: the left child has
/// half of them (rounded down), the right the rest, and no primitive on
/// the left has a larger key on the node's axis than one on the right.
pub open spec fn split_ok<B>(nodes: Seq<BvhNode<B>>, keys: Seq<(u64, u64, u64)>, k: int) -> bool {
    (nodes[k].left is Node && nodes[k].right is Node) ==> {
        let l = child_prims(nodes, k, nodes[k].left);
        let r = child_prims(nodes, k, nodes[k].right);
        let all = node_prims(nodes, k);
        &&& nodes[k].axis == longest_of(nodes[k].extent_keys)
        &&& l.len() == all.len() / 2
        &&& r.len() == all.len() - all.len() / 2
        &&& forall|p: usize, q: usize|
            #[trigger] l.contains(p) && #[trigger] r.contains(q) ==> key_on(
                keys[p as int],
                nodes[k].axis,
            ) <= key_on(keys[q as int], nodes[k].axis)
    }
}

/// The primitives below node `k`.
pub open spec fn node_prims<B>(nodes: Seq<BvhNode<B>>, k: int) -> Set<usize>
    decreases k, 1int,
{
    if 0 <= k < nodes.len() {
        child_prims(nodes, k, nodes[k].left).union(child_prims(nodes, k, nodes[k].right))
    } else {
        Set::empty()
    }
}

/// The primitives below child `c` of node `k`.
pub open spec fn child_prims<B>(nodes: Seq<BvhNode<B>>, k: int, c: BvhChild) -> Set<usize>
    decreases k, 0int,
{
    match c {
        BvhChild::Prim(i) => set![i],
        BvhChild::Node(j) => if 0 <= j < k {
            node_prims(nodes, j as int)
        } else {
            Set::empty()
        },
    }
}

/// Traversal of node `k` over `(lo, hi)`: nothing if the ray misses the
/// box; else the left side over the whole interval, then the right side
/// below the left side's hit, the right side's hit winning if there is one.
pub open spec fn node_hit<B>(
    nodes: Seq<BvhNode<B>>,
    k: int,
    lo: u64,
    hi: u64,
    boxf: spec_fn(B) -> bool,
    prim: spec_fn(usize, u64, u64) -> Option<u64>,
) -> Option<(usize, u64)>
    decreases k, 1int,
{
    if 0 <= k < nodes.len() {
        if !boxf(nodes[k].bbox) {
            None
        } else {
            let l = child_hit(nodes, k, nodes[k].left, lo, hi, boxf, prim);
            match l {
                Some(p) => match child_hit(nodes, k, nodes[k].right, lo, p.1, boxf, prim) {
                    Some(q) => Some(q),
                    None => l,
                },
                None => child_hit(nodes, k, nodes[k].right, lo, hi, boxf, prim),
            }
        }
    } else {
        None
    }
}

/// Traversal of child `c` of node `k`: a primitive is probed directly.
pub open spec fn child_hit<B>(
    nodes: Seq<BvhNode<B>>,
    k: int,
    c: BvhChild,
    lo: u64,
    hi: u64,
    boxf: spec_fn(B) -> bool,
    prim: spec_fn(usize, u64, u64) -> Option<u64>,
) -> Option<(usize, u64)>
    decreases k, 0int,
{
    match c {
        BvhChild::Prim(i) => match prim(i, lo, hi) {
            Some(t) => if surrounds(lo, hi, t) {
                Some((i, t))
            } else {
                None
            },
            None => None,
        },
        BvhChild::Node(j) => if 0 <= j < k {
            node_hit(nodes, j as int, lo, hi, boxf, prim)
        } else {
            None
        },
    }
}

/// Every distance at which a primitive of `prims` meets the ray.
pub open spec fn roots_of(roots: spec_fn(usize) -> Set<u64>, prims: Set<usize>) -> Set<u64> {
    Set::new(|t: u64| exists|i: usize| prims.contains(i) && #[trigger] roots(i).contains(t))
}

/// A box that the ray misses holds no primitive that the ray meets.
pub open spec fn boxes_sound<B>(
    nodes: Seq<BvhNode<B>>,
    boxf: spec_fn(B) -> bool,
    roots: spec_fn(usize) -> Set<u64>,
) -> bool {
    forall|k: int|
        0 <= k < nodes.len() && !boxf(#[trigger] nodes[k].bbox) ==> forall|t: u64|
            !roots_of(roots, node_prims(nodes, k)).contains(t)
}

/// The answer that a deterministic box test gives.
pub open spec fn box_answer<B, F: Fn(&B) -> bool>(f: F) -> spec_fn(B) -> bool {
    |b: B| choose|r: bool| call_ensures(f, (&b,), r)
}

/// The box test is a function of the box.
pub open spec fn box_deterministic<B, F: Fn(&B) -> bool>(f: F) -> bool {
    forall|b: &B, r1: bool, r2: bool|
        call_ensures(f, (b,), r1) && call_ensures(f, (b,), r2) ==> r1 == r2
}

/// The box test may be called on any box.
pub open spec fn box_total<B, F: Fn(&B) -> bool>(f: F) -> bool {
    forall|b: &B| call_requires(f, (b,))
}

/// Relies on slice::sort_by_key: a stable sort that rearranges the pairs so
/// that their first components ascend.
#[verifier::external_body]
fn sort_by_first(v: &mut Vec<(u64, usize)>)
    ensures
        final(v)@.to_multiset() == old(v)@.to_multiset(),
        forall|i: int, j: int| 0 <= i < j < final(v)@.len() ==> final(v)@[i].0 <= final(v)@[j].0,
{
    v.sort_by_key(|p| p.0);
}


/// Calls the box test and relates the result to `box_answer`.
fn test_box<B, F: Fn(&B) -> bool>(f: &F, b: &B) -> (r: bool)
    requires
        box_total(*f),
        box_deterministic(*f),
    ensures
        r == box_answer(*f)(*b),
{
    let r = f(b);
    assert(call_ensures(*f, (b,), r));
    r
}

impl<B> BVHTree<B> {
    /// The arena is non-empty and every child points backwards.
    pub open spec fn wf(&self) -> bool {
        self.nodes@.len() >= 1 && nodes_wf(self.nodes@, self.prim_count as nat)
    }

    /// Index of the root node.
    pub open spec fn root(&self) -> int {
        self.nodes@.len() - 1
    }

    /// Every primitive `0..prim_count` stands below the root, and no other.
    pub open spec fn covers_all(&self) -> bool {
        node_prims(self.nodes@, self.root()) == Set::new(|i: usize| i < self.prim_count)
    }

    /// Nearest hit of the ray over `(lo, hi)`: `box_hit` tells whether the
    /// ray meets a box, `prim_hit(i, lo, hi)` probes primitive `i`.
    pub fn hit<F: Fn(&B) -> bool, G: Fn(usize, u64, u64) -> Option<u64>>(
        &self,
        lo: u64,
        hi: u64,
        box_hit: &F,
        prim_hit: &G,
    ) -> (r: Option<(usize, u64)>)
        requires
            self.wf(),
            box_total(*box_hit),
            box_deterministic(*box_hit),
            probe_total(*prim_hit),
            probe_deterministic(*prim_hit),
        ensures
            r == node_hit(
                self.nodes@,
                self.root(),
                lo,
                hi,
                box_answer(*box_hit),
                probe_answer(*prim_hit),
            ),
    {
        self.hit_node(self.nodes.len() - 1, lo, hi, box_hit, prim_hit)
    }

    fn hit_node<F: Fn(&B) -> bool, G: Fn(usize, u64, u64) -> Option<u64>>(
        &self,
        k: usize,
        lo: u64,
        hi: u64,
        box_hit: &F,
        prim_hit: &G,
    ) -> (r: Option<(usize, u64)>)
        requires
            self.wf(),
            k < self.nodes@.len(),
            box_total(*box_hit),
            box_deterministic(*box_hit),
            probe_total(*prim_hit),
            probe_deterministic(*prim_hit),
        ensures
            r == node_hit(
                self.nodes@,
                k as int,
                lo,
                hi,
                box_answer(*box_hit),
                probe_answer(*prim_hit),
            ),
        decreases k, 1int,
    {
        let node = &self.nodes[k];
        assert(child_ok(self.nodes@[k as int].left, k as int, self.prim_count as nat));
        if !test_box(box_hit, &node.bbox) {
            return None;
        }
        let l = self.hit_child(k, node.left, lo, hi, box_hit, prim_hit);
        match l {
            Some(p) => {
                match self.hit_child(k, node.right, lo, p.1, box_hit, prim_hit) {
                    Some(q) => Some(q),
                    None => l,
                }
            },
            None => self.hit_child(k, node.right, lo, hi, box_hit, prim_hit),
        }
    }

    fn hit_child<F: Fn(&B) -> bool, G: Fn(usize, u64, u64) -> Option<u64>>(
        &self,
        k: usize,
        c: BvhChild,
        lo: u64,
        hi: u64,
        box_hit: &F,
        prim_hit: &G,
    ) -> (r: Option<(usize, u64)>)
        requires
            self.wf(),
            k < self.nodes@.len(),
            child_ok(c, k as int, self.prim_count as nat),
            box_total(*box_hit),
            box_deterministic(*box_hit),
            probe_total(*prim_hit),
            probe_deterministic(*prim_hit),
        ensures
            r == child_hit(
                self.nodes@,
                k as int,
                c,
                lo,
                hi,
                box_answer(*box_hit),
                probe_answer(*prim_hit),
            ),
        decreases k, 0int,
    {
        match c {
            BvhChild::Prim(i) => match probe(prim_hit, i, lo, hi) {
                Some(t) => if lo < t && t < hi {
                    Some((i, t))
                } else {
                    None
                },
                None => None,
            },
            BvhChild::Node(j) => self.hit_node(j, lo, hi, box_hit, prim_hit),
        }
    }
}


/// The distances met below two sets of primitives together.
proof fn lemma_roots_of_union(roots: spec_fn(usize) -> Set<u64>, a: Set<usize>, b: Set<usize>)
    ensures
        roots_of(roots, a.union(b)) == roots_of(roots, a).union(roots_of(roots, b)),
{
    assert forall|t: u64| #[trigger] roots_of(roots, a.union(b)).contains(t) implies roots_of(
        roots,
        a,
    ).union(roots_of(roots, b)).contains(t) by {
        let i = choose|i: usize| a.union(b).contains(i) && #[trigger] roots(i).contains(t);
        if a.contains(i) {
            assert(roots_of(roots, a).contains(t));
        } else {
            assert(roots_of(roots, b).contains(t));
        }
    }
    assert forall|t: u64| #[trigger] roots_of(roots, a).union(roots_of(roots, b)).contains(
        t,
    ) implies roots_of(roots, a.union(b)).contains(t) by {
        if roots_of(roots, a).contains(t) {
            let i = choose|i: usize| a.contains(i) && #[trigger] roots(i).contains(t);
            assert(a.union(b).contains(i));
        } else {
            let i = choose|i: usize| b.contains(i) && #[trigger] roots(i).contains(t);
            assert(a.union(b).contains(i));
        }
    }
    assert(roots_of(roots, a.union(b)) =~= roots_of(roots, a).union(roots_of(roots, b)));
}

/// Traversal of a node finds the nearest distance met below it.
proof fn lemma_node_hit_nearest<B>(
    nodes: Seq<BvhNode<B>>,
    k: int,
    lo: u64,
    hi: u64,
    boxf: spec_fn(B) -> bool,
    prim: spec_fn(usize, u64, u64) -> Option<u64>,
    roots: spec_fn(usize) -> Set<u64>,
)
    requires
        probes_nearest(prim, roots),
        boxes_sound(nodes, boxf, roots),
        0 <= k < nodes.len(),
    ensures
        is_nearest(
            roots_of(roots, node_prims(nodes, k)),
            lo,
            hi,
            hit_t(node_hit(nodes, k, lo, hi, boxf, prim)),
        ),
    decreases k, 1int,
{
    let below = roots_of(roots, node_prims(nodes, k));
    if !boxf(nodes[k].bbox) {
        assert forall|u: u64| #[trigger] below.contains(u) implies !crate::hits::surrounds(
            lo,
            hi,
            u,
        ) by {}
    } else {
        let lc = nodes[k].left;
        let rc = nodes[k].right;
        let l = child_hit(nodes, k, lc, lo, hi, boxf, prim);
        let bound = match l {
            Some(p) => p.1,
            None => hi,
        };
        let r = child_hit(nodes, k, rc, lo, bound, boxf, prim);
        lemma_child_hit_nearest(nodes, k, lc, lo, hi, boxf, prim, roots);
        lemma_child_hit_nearest(nodes, k, rc, lo, bound, boxf, prim, roots);
        lemma_nearest_join(
            roots_of(roots, child_prims(nodes, k, lc)),
            roots_of(roots, child_prims(nodes, k, rc)),
            lo,
            hi,
            hit_t(l),
            hit_t(r),
        );
        lemma_roots_of_union(roots, child_prims(nodes, k, lc), child_prims(nodes, k, rc));
    }
}

/// Traversal of a child finds the nearest distance met below it.
proof fn lemma_child_hit_nearest<B>(
    nodes: Seq<BvhNode<B>>,
    k: int,
    c: BvhChild,
    lo: u64,
    hi: u64,
    boxf: spec_fn(B) -> bool,
    prim: spec_fn(usize, u64, u64) -> Option<u64>,
    roots: spec_fn(usize) -> Set<u64>,
)
    requires
        probes_nearest(prim, roots),
        boxes_sound(nodes, boxf, roots),
        k < nodes.len(),
    ensures
        is_nearest(
            roots_of(roots, child_prims(nodes, k, c)),
            lo,
            hi,
            hit_t(child_hit(nodes, k, c, lo, hi, boxf, prim)),
        ),
    decreases k, 0int,
{
    match c {
        BvhChild::Prim(i) => {
            assert(is_nearest(roots(i), lo, hi, accepted(prim(i, lo, hi), lo, hi)));
            assert forall|t: u64| roots(i).contains(t) implies #[trigger] roots_of(
                roots,
                set![i],
            ).contains(t) by {
                assert(set![i].contains(i));
            }
            assert(roots_of(roots, set![i]) =~= roots(i));
        },
        BvhChild::Node(j) => {
            if 0 <= j < k {
                lemma_node_hit_nearest(nodes, j as int, lo, hi, boxf, prim, roots);
            } else {
                let e = roots_of(roots, Set::<usize>::empty());
                assert forall|u: u64| #[trigger] e.contains(u) implies !crate::hits::surrounds(
                    lo,
                    hi,
                    u,
                ) by {}
            }
        },
    }
}

/// Walking the hierarchy finds the same nearest distance as probing every
/// primitive in turn, over any interval, when each probe answers with its
/// primitive's nearest distance and no box that the ray misses holds a
/// primitive that the ray meets.
pub proof fn lemma_bvh_matches_list<B>(
    tree: BVHTree<B>,
    lo: u64,
    hi: u64,
    boxf: spec_fn(B) -> bool,
    prim: spec_fn(usize, u64, u64) -> Option<u64>,
    roots: spec_fn(usize) -> Set<u64>,
)
    requires
        tree.wf(),
        tree.covers_all(),
        probes_nearest(prim, roots),
        boxes_sound(tree.nodes@, boxf, roots),
    ensures
        hit_t(node_hit(tree.nodes@, tree.root(), lo, hi, boxf, prim)) == hit_t(
            list_hit(tree.prim_count as nat, lo, hi, prim),
        ),
{
    let n = tree.prim_count as nat;
    lemma_node_hit_nearest(tree.nodes@, tree.root(), lo, hi, boxf, prim, roots);
    lemma_list_hit_nearest(n, lo, hi, prim, roots);
    let all = Set::new(|i: usize| i < tree.prim_count);
    assert forall|t: u64| #[trigger] roots_of(roots, all).contains(t) implies roots_below(
        roots,
        n,
    ).contains(t) by {
        let i = choose|i: usize| all.contains(i) && #[trigger] roots(i).contains(t);
        assert(i < n && roots(i).contains(t));
    }
    assert forall|t: u64| #[trigger] roots_below(roots, n).contains(t) implies roots_of(
        roots,
        all,
    ).contains(t) by {
        let i = choose|i: usize| i < n && #[trigger] roots(i).contains(t);
        assert(all.contains(i) && roots(i).contains(t));
    }
    assert(roots_of(roots, all) =~= roots_below(roots, n));
    lemma_nearest_unique(
        roots_below(roots, n),
        lo,
        hi,
        hit_t(node_hit(tree.nodes@, tree.root(), lo, hi, boxf, prim)),
        hit_t(list_hit(n, lo, hi, prim)),
    );
}


/// What lies below a node depends only on the arena up to that node.
proof fn lemma_node_prims_prefix<B>(a: Seq<BvhNode<B>>, b: Seq<BvhNode<B>>, k: int)
    requires
        0 <= k < a.len() <= b.len(),
        forall|j: int| 0 <= j < a.len() ==> b[j] == a[j],
    ensures
        node_prims(b, k) == node_prims(a, k),
    decreases k,
{
    let lc = a[k].left;
    let rc = a[k].right;
    match lc {
        BvhChild::Node(j) => if 0 <= j < k {
            lemma_node_prims_prefix(a, b, j as int);
        },
        BvhChild::Prim(_) => {},
    }
    match rc {
        BvhChild::Node(j) => if 0 <= j < k {
            lemma_node_prims_prefix(a, b, j as int);
        },
        BvhChild::Prim(_) => {},
    }
    assert(child_prims(b, k, lc) == child_prims(a, k, lc));
    assert(child_prims(b, k, rc) == child_prims(a, k, rc));
}

/// Whether a node splits at the midpoint depends only on the arena up to it.
proof fn lemma_split_ok_prefix<B>(
    a: Seq<BvhNode<B>>,
    b: Seq<BvhNode<B>>,
    keys: Seq<(u64, u64, u64)>,
    k: int,
)
    requires
        0 <= k < a.len() <= b.len(),
        forall|j: int| 0 <= j < a.len() ==> b[j] == a[j],
        split_ok(a, keys, k),
    ensures
        split_ok(b, keys, k),
{
    lemma_node_prims_prefix(a, b, k);
    match a[k].left {
        BvhChild::Node(j) => if 0 <= j < k {
            lemma_node_prims_prefix(a, b, j as int);
        },
        BvhChild::Prim(_) => {},
    }
    match a[k].right {
        BvhChild::Node(j) => if 0 <= j < k {
            lemma_node_prims_prefix(a, b, j as int);
        },
        BvhChild::Prim(_) => {},
    }
    assert(child_prims(b, k, a[k].left) == child_prims(a, k, a[k].left));
    assert(child_prims(b, k, a[k].right) == child_prims(a, k, a[k].right));
}

impl<B: BoundingBox + Clone> BVHTree<B> {
    /// Builds the hierarchy over primitives `0..boxes.len()`, where
    /// `boxes[i]` bounds primitive `i`. One primitive makes a leaf, two a
    /// node with one on each side; more are ordered by the lower bound of
    /// their boxes on the longest axis of the joined box and split in half.
    pub fn from_list(boxes: &Vec<B>) -> (r: BVHTree<B>)
        requires
            boxes@.len() >= 1,
        ensures
            r.wf(),
            r.prim_count == boxes@.len(),
            r.covers_all(),
            boxes@.len() == 1 ==> r.nodes@.len() == 1 && r.nodes@[0].left == BvhChild::Prim(0)
                && r.nodes@[0].right == BvhChild::Prim(0),
            boxes@.len() == 2 ==> r.nodes@.len() == 1 && r.nodes@[0].left == BvhChild::Prim(0)
                && r.nodes@[0].right == BvhChild::Prim(1),
            boxes@.len() >= 3 ==> r.nodes@[r.root()].left is Node && r.nodes@[r.root()].right is Node,
            boxes@.len() >= 3 ==> child_prims(r.nodes@, r.root(), r.nodes@[r.root()].left).len()
                == boxes@.len() / 2 && child_prims(r.nodes@, r.root(), r.nodes@[r.root()].right).len()
                == boxes@.len() - boxes@.len() / 2,
            r.min_keys@.len() == boxes@.len(),
            forall|k: int| 0 <= k < r.nodes@.len() ==> split_ok(r.nodes@, r.min_keys@, k),
    {
        let n = boxes.len();
        let mut keys: Vec<(u64, u64, u64)> = Vec::new();
        let mut i: usize = 0;
        while i < n
            invariant
                i <= n,
                n == boxes@.len(),
                keys@.len() == i,
            decreases n - i,
        {
            let b = &boxes[i];
            keys.push((b.axis_min_key(0), b.axis_min_key(1), b.axis_min_key(2)));
            i = i + 1;
        }
        let mut ids: Vec<usize> = Vec::new();
        let mut i: usize = 0;
        while i < n
            invariant
                i <= n,
                n == boxes@.len(),
                ids@.len() == i,
                forall|j: int| 0 <= j < i ==> ids@[j] == j,
            decreases n - i,
        {
            ids.push(i);
            i = i + 1;
        }
        let mut nodes: Vec<BvhNode<B>> = Vec::new();
        let ghost ids0 = ids@;
        assert(ids0.no_duplicates());
        let root = Self::build(boxes, &keys, ids, &mut nodes);
        let r = BVHTree { nodes, prim_count: n, min_keys: keys };
        assert(ids0.to_set() =~= Set::new(|i: usize| i < n)) by {
            assert forall|x: usize| x < n implies ids0.to_set().contains(x) by {
                assert(ids0[x as int] == x);
            }
        }
        proof {
            ids0.unique_seq_to_set();
            assert(split_ok(r.nodes@, r.min_keys@, r.root()));
        }
        r
    }

    /// Appends the subtree over the primitives `ids` to `nodes` and returns
    /// the index of its root, which is the last node appended.
    fn build(boxes: &Vec<B>, keys: &Vec<(u64, u64, u64)>, ids: Vec<usize>, nodes: &mut Vec<BvhNode<B>>) -> (k: usize)
        requires
            keys@.len() == boxes@.len(),
            ids@.len() >= 1,
            ids@.no_duplicates(),
            forall|j: int| 0 <= j < ids@.len() ==> ids@[j] < boxes@.len(),
            nodes_wf(old(nodes)@, boxes@.len() as nat),
        ensures
            nodes_wf(final(nodes)@, boxes@.len() as nat),
            final(nodes)@.len() > old(nodes)@.len(),
            k == final(nodes)@.len() - 1,
            forall|j: int| 0 <= j < old(nodes)@.len() ==> final(nodes)@[j] == old(nodes)@[j],
            node_prims(final(nodes)@, k as int) == ids@.to_set(),
            ids@.len() == 1 ==> final(nodes)@.len() == old(nodes)@.len() + 1
                && final(nodes)@[k as int].left == BvhChild::Prim(ids@[0])
                && final(nodes)@[k as int].right == BvhChild::Prim(ids@[0]),
            ids@.len() == 2 ==> final(nodes)@.len() == old(nodes)@.len() + 1
                && final(nodes)@[k as int].left == BvhChild::Prim(ids@[0])
                && final(nodes)@[k as int].right == BvhChild::Prim(ids@[1]),
            ids@.len() >= 3 ==> final(nodes)@[k as int].left is Node
                && final(nodes)@[k as int].right is Node,
            ids@.len() >= 3 ==> child_prims(final(nodes)@, k as int, final(nodes)@[k as int].left).len()
                == ids@.len() / 2 && child_prims(
                final(nodes)@,
                k as int,
                final(nodes)@[k as int].right,
            ).len() == ids@.len() - ids@.len() / 2,
            forall|j: int|
                old(nodes)@.len() <= j < final(nodes)@.len() ==> split_ok(final(nodes)@, keys@, j),
        decreases ids@.len(),
    {
        let ghost n = boxes@.len() as nat;
        let len = ids.len();
        if len == 1 {
            let a = ids[0];
            let node = BvhNode { left: BvhChild::Prim(a), right: BvhChild::Prim(a), bbox: boxes[a].clone(), axis: 0, extent_keys: (0, 0, 0) };
            nodes.push(node);
            let k = nodes.len() - 1;
            assert(ids@.to_set() =~= set![a]) by {
                assert(ids@ =~= seq![a]);
                assert(ids@.contains(a));
            }
            assert(child_prims(nodes@, k as int, BvhChild::Prim(a)) == set![a]);
            assert(node_prims(nodes@, k as int) =~= set![a]);
            return k;
        }
        if len == 2 {
            let a = ids[0];
            let b = ids[1];
            let node = BvhNode {
                left: BvhChild::Prim(a),
                right: BvhChild::Prim(b),
                bbox: boxes[a].join(&boxes[b]),
                axis: 0,
                extent_keys: (0, 0, 0),
            };
            nodes.push(node);
            let k = nodes.len() - 1;
            assert(ids@.to_set() =~= set![a, b]) by {
                assert(ids@ =~= seq![a, b]);
                assert(ids@.contains(a));
                assert(ids@.contains(b));
            }
            assert(child_prims(nodes@, k as int, BvhChild::Prim(a)) == set![a]);
            assert(child_prims(nodes@, k as int, BvhChild::Prim(b)) == set![b]);
            assert(node_prims(nodes@, k as int) =~= set![a, b]);
            return k;
        }
        let mut bbox = B::empty();
        let mut i: usize = 0;
        while i < len
            invariant
                i <= len,
                len == ids@.len(),
                forall|j: int| 0 <= j < ids@.len() ==> ids@[j] < boxes@.len(),
            decreases len - i,
        {
            bbox = boxes[ids[i]].join(&bbox);
            i = i + 1;
        }
        let extent_keys = bbox.size_keys();
        let (sx, sy, sz) = extent_keys;
        let axis = longest_axis(sx, sy, sz);
        let mut keyed: Vec<(u64, usize)> = Vec::new();
        let mut i: usize = 0;
        while i < len
            invariant
                i <= len,
                len == ids@.len(),
                keyed@.len() == i,
                forall|j: int| 0 <= j < ids@.len() ==> ids@[j] < boxes@.len(),
                keys@.len() == boxes@.len(),
                forall|j: int| 0 <= j < i ==> (#[trigger] keyed@[j]).1 == ids@[j],
                forall|j: int| 0 <= j < i ==> (#[trigger] keyed@[j]).0 == key_on(keys@[keyed@[j].1 as int], axis),
            decreases len - i,
        {
            let id = ids[i];
            keyed.push((axis_key(keys[id], axis), id));
            i = i + 1;
        }
        let ghost unsorted = keyed@;
        sort_by_first(&mut keyed);
        proof {
            vstd::seq_lib::to_multiset_len(keyed@);
            vstd::seq_lib::to_multiset_len(unsorted);
            assert(keyed@.len() == unsorted.len());
            broadcast use vstd::seq_lib::to_multiset_contains;
            assert forall|m: int| 0 <= m < keyed@.len() implies (#[trigger] keyed@[m]).1
                < boxes@.len() by {
                assert(keyed@.contains(keyed@[m]));
                assert(keyed@.to_multiset().count(keyed@[m]) > 0);
                assert(unsorted.contains(keyed@[m]));
            }
            assert(unsorted.no_duplicates()) by {
                assert forall|a: int, b: int|
                    0 <= a < unsorted.len() && 0 <= b < unsorted.len() && a != b implies unsorted[a]
                    != unsorted[b] by {
                    assert(unsorted[a].1 == ids@[a]);
                    assert(unsorted[b].1 == ids@[b]);
                }
            }
            assert forall|m: int| 0 <= m < keyed@.len() implies (#[trigger] keyed@[m]).0 == key_on(
                keys@[keyed@[m].1 as int],
                axis,
            ) by {
                assert(keyed@.contains(keyed@[m]));
                assert(keyed@.to_multiset().count(keyed@[m]) > 0);
                assert(unsorted.contains(keyed@[m]));
            }
            unsorted.lemma_multiset_has_no_duplicates();
            assert forall|x: (u64, usize)| keyed@.to_multiset().contains(x) implies keyed@.to_multiset().count(
                x,
            ) == 1 by {
                assert(unsorted.to_multiset().contains(x));
            }
            keyed@.lemma_multiset_has_no_duplicates_conv();
            assert forall|a: int, b: int|
                0 <= a < keyed@.len() && 0 <= b < keyed@.len() && a != b implies (#[trigger] keyed@[a]).1
                != (#[trigger] keyed@[b]).1 by {
                if keyed@[a].1 == keyed@[b].1 {
                    assert(keyed@.contains(keyed@[a]));
                    assert(keyed@.to_multiset().count(keyed@[a]) > 0);
                    assert(unsorted.contains(keyed@[a]));
                    let ja = choose|j: int| 0 <= j < unsorted.len() && unsorted[j] == keyed@[a];
                    assert(keyed@.contains(keyed@[b]));
                    assert(keyed@.to_multiset().count(keyed@[b]) > 0);
                    assert(unsorted.contains(keyed@[b]));
                    let jb = choose|j: int| 0 <= j < unsorted.len() && unsorted[j] == keyed@[b];
                    assert(ids@[ja] == ids@[jb]);
                }
            }
        }
        let mid = len / 2;
        let mut left: Vec<usize> = Vec::new();
        let mut right: Vec<usize> = Vec::new();
        let mut i: usize = 0;
        while i < len
            invariant
                i <= len,
                len == keyed@.len(),
                mid <= len,
                forall|m: int| 0 <= m < keyed@.len() ==> (#[trigger] keyed@[m]).1 < boxes@.len(),
                i <= mid ==> left@.len() == i && right@.len() == 0,
                i > mid ==> left@.len() == mid && right@.len() == i - mid,
                forall|j: int| 0 <= j < left@.len() ==> left@[j] == (#[trigger] keyed@[j]).1,
                forall|j: int| mid <= j < mid + right@.len() ==> right@[j - mid] == (#[trigger] keyed@[j]).1,
            decreases len - i,
        {
            if i < mid {
                left.push(keyed[i].1);
            } else {
                right.push(keyed[i].1);
            }
            i = i + 1;
        }
        proof {
            broadcast use vstd::seq_lib::to_multiset_contains;
            assert forall|x: usize| ids@.to_set().contains(x) implies left@.to_set().union(
                right@.to_set(),
            ).contains(x) by {
                let j = choose|j: int| 0 <= j < ids@.len() && ids@[j] == x;
                assert(unsorted.contains(unsorted[j]));
                assert(unsorted.to_multiset().count(unsorted[j]) > 0);
                assert(keyed@.contains(unsorted[j]));
                let m = choose|m: int| 0 <= m < keyed@.len() && keyed@[m] == unsorted[j];
                if m < mid {
                    assert(left@[m] == x);
                    assert(left@.contains(x));
                } else {
                    assert(right@[m - mid] == x);
                    assert(right@.contains(x));
                }
            }
            assert forall|x: usize| left@.to_set().union(right@.to_set()).contains(x) implies ids@.to_set().contains(
                x,
            ) by {
                let m: int = if left@.contains(x) {
                    let j = choose|j: int| 0 <= j < left@.len() && left@[j] == x;
                    j
                } else {
                    let j = choose|j: int| 0 <= j < right@.len() && right@[j] == x;
                    j + mid
                };
                assert(keyed@[m].1 == x);
                assert(keyed@.contains(keyed@[m]));
                assert(keyed@.to_multiset().count(keyed@[m]) > 0);
                assert(unsorted.contains(keyed@[m]));
                let j = choose|j: int| 0 <= j < unsorted.len() && unsorted[j] == keyed@[m];
                assert(ids@[j] == x);
                assert(ids@.contains(x));
            }
            assert(ids@.to_set() =~= left@.to_set().union(right@.to_set()));
        }
        assert forall|j: int| 0 <= j < left@.len() implies left@[j] < boxes@.len() by {
            assert(left@[j] == keyed@[j].1);
        }
        assert forall|j: int| 0 <= j < right@.len() implies right@[j] < boxes@.len() by {
            assert(right@[(j + mid) - mid] == keyed@[j + mid].1);
        }
        assert(left@.no_duplicates()) by {
            assert forall|a: int, b: int|
                0 <= a < left@.len() && 0 <= b < left@.len() && a != b implies left@[a] != left@[b] by {
                assert(left@[a] == keyed@[a].1);
                assert(left@[b] == keyed@[b].1);
            }
        }
        assert(right@.no_duplicates()) by {
            assert forall|a: int, b: int|
                0 <= a < right@.len() && 0 <= b < right@.len() && a != b implies right@[a] != right@[b] by {
                assert(right@[(a + mid) - mid] == keyed@[a + mid].1);
                assert(right@[(b + mid) - mid] == keyed@[b + mid].1);
            }
        }
        let ghost left_ids = left@;
        let ghost right_ids = right@;
        let lk = Self::build(boxes, keys, left, nodes);
        let ghost nodes1 = nodes@;
        let rk = Self::build(boxes, keys, right, nodes);
        let ghost nodes2 = nodes@;
        nodes.push(BvhNode { left: BvhChild::Node(lk), right: BvhChild::Node(rk), bbox, axis, extent_keys });
        let k = nodes.len() - 1;
        proof {
            lemma_node_prims_prefix(nodes1, nodes@, lk as int);
            lemma_node_prims_prefix(nodes2, nodes@, rk as int);
            assert(node_prims(nodes@, k as int) =~= left_ids.to_set().union(right_ids.to_set()));
            left_ids.unique_seq_to_set();
            right_ids.unique_seq_to_set();
            assert(child_prims(nodes@, k as int, BvhChild::Node(lk)) == left_ids.to_set());
            assert(child_prims(nodes@, k as int, BvhChild::Node(rk)) == right_ids.to_set());
            ids@.unique_seq_to_set();
            assert forall|p: usize, q: usize|
                #[trigger] left_ids.to_set().contains(p) && #[trigger] right_ids.to_set().contains(
                    q,
                ) implies key_on(keys@[p as int], axis) <= key_on(keys@[q as int], axis) by {
                let a = choose|a: int| 0 <= a < left_ids.len() && left_ids[a] == p;
                let b = choose|b: int| 0 <= b < right_ids.len() && right_ids[b] == q;
                assert(left_ids[a] == keyed@[a].1);
                assert(right_ids[(b + mid) - mid] == keyed@[b + mid].1);
                assert(keyed@[a].0 <= keyed@[b + mid].0);
            }
            assert(split_ok(nodes@, keys@, k as int));
            assert forall|j: int| old(nodes)@.len() <= j < nodes@.len() implies split_ok(
                nodes@,
                keys@,
                j,
            ) by {
                if j < nodes1.len() {
                    lemma_split_ok_prefix(nodes1, nodes@, keys@, j);
                } else if j < nodes2.len() {
                    lemma_split_ok_prefix(nodes2, nodes@, keys@, j);
                }
            }
        }
        k
    }
}

} // verus!
