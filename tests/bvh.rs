use raytracer::bvh::{longest_axis, BVHTree, BoundingBox, BvhChild};
use raytracer::hits::{nearest_in_list, pick_root};
use raytracer::order::order_key;

/// A one-dimensional box on integer keys, spread over three equal axes.
#[derive(Clone, Copy, Debug, PartialEq)]
struct Span {
    lo: u64,
    hi: u64,
}

impl BoundingBox for Span {
    fn empty() -> Self {
        Span { lo: u64::MAX, hi: 0 }
    }
    fn join(&self, other: &Self) -> Self {
        Span { lo: self.lo.min(other.lo), hi: self.hi.max(other.hi) }
    }
    fn axis_min_key(&self, _axis: usize) -> u64 {
        self.lo
    }
    fn size_keys(&self) -> (u64, u64, u64) {
        let s = self.hi.saturating_sub(self.lo);
        (s, s, s)
    }
}

fn prims_below(tree: &BVHTree<Span>, c: BvhChild, out: &mut Vec<usize>) {
    match c {
        BvhChild::Prim(i) => out.push(i),
        BvhChild::Node(k) => {
            let n = &tree.nodes[k];
            prims_below(tree, n.left, out);
            if !matches!((n.left, n.right), (BvhChild::Prim(a), BvhChild::Prim(b)) if a == b) {
                prims_below(tree, n.right, out);
            }
        }
    }
}

/// Primitive `i` is met by the ray at distances `roots[i]`.
fn sample_roots() -> Vec<Vec<u64>> {
    vec![vec![50, 60], vec![30], vec![], vec![70, 20], vec![30, 90], vec![45]]
}

fn spans(roots: &[Vec<u64>]) -> Vec<Span> {
    roots
        .iter()
        .enumerate()
        .map(|(i, r)| Span { lo: i as u64 * 10, hi: i as u64 * 10 + 5 + r.len() as u64 })
        .collect()
}

fn probe(roots: &[Vec<u64>], i: usize, lo: u64, hi: u64) -> Option<u64> {
    roots[i].iter().copied().filter(|&t| lo < t && t < hi).min()
}

#[test]
fn longest_axis_picks_strictly_largest() {
    assert_eq!(longest_axis(5, 1, 1), 0);
    assert_eq!(longest_axis(1, 5, 1), 1);
    assert_eq!(longest_axis(1, 1, 5), 2);
}

#[test]
fn longest_axis_breaks_ties_toward_z_then_y() {
    assert_eq!(longest_axis(3, 3, 3), 2);
    assert_eq!(longest_axis(3, 3, 1), 1);
    assert_eq!(longest_axis(3, 1, 3), 2);
    assert_eq!(longest_axis(1, 3, 3), 2);
}

#[test]
fn single_primitive_makes_a_leaf() {
    let tree = BVHTree::from_list(&vec![Span { lo: 1, hi: 2 }]);
    assert_eq!(tree.nodes.len(), 1);
    assert_eq!(tree.prim_count, 1);
    assert!(matches!(tree.nodes[0].left, BvhChild::Prim(0)));
    assert!(matches!(tree.nodes[0].right, BvhChild::Prim(0)));
    assert_eq!(tree.nodes[0].bbox, Span { lo: 1, hi: 2 });
}

#[test]
fn two_primitives_make_one_node() {
    let tree = BVHTree::from_list(&vec![Span { lo: 1, hi: 2 }, Span { lo: 5, hi: 9 }]);
    assert_eq!(tree.nodes.len(), 1);
    assert!(matches!(tree.nodes[0].left, BvhChild::Prim(0)));
    assert!(matches!(tree.nodes[0].right, BvhChild::Prim(1)));
    assert_eq!(tree.nodes[0].bbox, Span { lo: 1, hi: 9 });
}

#[test]
fn every_primitive_stands_below_the_root_once() {
    let boxes: Vec<Span> = (0..13u64).rev().map(|i| Span { lo: i * 3, hi: i * 3 + 2 }).collect();
    let tree = BVHTree::from_list(&boxes);
    let mut seen = Vec::new();
    prims_below(&tree, BvhChild::Node(tree.nodes.len() - 1), &mut seen);
    seen.sort();
    assert_eq!(seen, (0..13).collect::<Vec<usize>>());
    let root = &tree.nodes[tree.nodes.len() - 1];
    assert_eq!(root.bbox, Span { lo: 0, hi: 38 });
}

#[test]
fn halves_are_split_by_lower_bound() {
    let boxes = vec![
        Span { lo: 40, hi: 41 },
        Span { lo: 10, hi: 11 },
        Span { lo: 30, hi: 31 },
        Span { lo: 20, hi: 21 },
    ];
    let tree = BVHTree::from_list(&boxes);
    let root = &tree.nodes[tree.nodes.len() - 1];
    let mut left = Vec::new();
    prims_below(&tree, root.left, &mut left);
    left.sort();
    assert_eq!(left, vec![1, 3]);
}

#[test]
fn bvh_hit_equals_list_scan() {
    let roots = sample_roots();
    let boxes = spans(&roots);
    let tree = BVHTree::from_list(&boxes);
    let prim = |i: usize, lo: u64, hi: u64| probe(&roots, i, lo, hi);
    let all_boxes = |_b: &Span| true;
    for (lo, hi) in [(0, 100), (25, 100), (0, 25), (30, 31), (45, 50), (91, 200)] {
        let from_tree = tree.hit(lo, hi, &all_boxes, &prim).map(|p| p.1);
        let from_list = nearest_in_list(roots.len(), lo, hi, &prim).map(|p| p.1);
        assert_eq!(from_tree, from_list);
    }
    assert_eq!(tree.hit(0, 100, &all_boxes, &prim).map(|p| p.1), Some(20));
    assert_eq!(tree.hit(25, 100, &all_boxes, &prim).map(|p| p.1), Some(30));
    assert_eq!(tree.hit(91, 200, &all_boxes, &prim), None);
}

#[test]
fn missed_boxes_prune_their_subtrees() {
    let roots = vec![vec![10], vec![20], vec![30], vec![40]];
    let boxes = spans(&roots);
    let tree = BVHTree::from_list(&boxes);
    let prim = |i: usize, lo: u64, hi: u64| probe(&roots, i, lo, hi);
    let nothing = |_b: &Span| false;
    assert_eq!(tree.hit(0, 100, &nothing, &prim), None);
}

#[test]
fn list_scan_keeps_the_first_of_equal_hits() {
    let roots = vec![vec![40], vec![30], vec![30], vec![35]];
    let prim = |i: usize, lo: u64, hi: u64| probe(&roots, i, lo, hi);
    assert_eq!(nearest_in_list(roots.len(), 0, 100, &prim), Some((1, 30)));
    assert_eq!(nearest_in_list(0, 0, 100, &prim), None);
    assert_eq!(nearest_in_list(roots.len(), 40, 100, &prim), None);
}

#[test]
fn hits_on_float_distances() {
    let ts = [2.5f64, 0.75, 4.0];
    let prim = |i: usize, lo: u64, hi: u64| {
        let k = order_key(ts[i].to_bits());
        if lo < k && k < hi {
            Some(k)
        } else {
            None
        }
    };
    let lo = order_key(0.001f64.to_bits());
    let hi = order_key(f64::INFINITY.to_bits());
    let r = nearest_in_list(3, lo, hi, &prim);
    assert_eq!(r, Some((1, order_key(0.75f64.to_bits()))));
}

#[test]
fn near_root_wins_when_inside() {
    assert_eq!(pick_root(10, 20, 5, 30), Some(10));
    assert_eq!(pick_root(10, 20, 10, 30), Some(20));
    assert_eq!(pick_root(10, 20, 12, 20), None);
    assert_eq!(pick_root(10, 20, 0, 10), None);
    assert_eq!(pick_root(10, 20, 15, 25), Some(20));
}

#[test]
fn sphere_roots_on_float_distances() {
    // Roots 1.5 and 2.5 of a unit-diameter sphere two units away.
    let k = |t: f64| order_key(t.to_bits());
    let lo = k(0.001);
    let hi = k(f64::INFINITY);
    assert_eq!(pick_root(k(1.5), k(2.5), lo, hi), Some(k(1.5)));
    // From inside the sphere the near root lies behind the origin.
    assert_eq!(pick_root(k(-0.5), k(0.5), lo, hi), Some(k(0.5)));
}

#[test]
fn odd_counts_put_the_extra_primitive_right() {
    let boxes: Vec<Span> = (0..5u64).map(|i| Span { lo: i * 10, hi: i * 10 + 1 }).collect();
    let tree = BVHTree::from_list(&boxes);
    let root = &tree.nodes[tree.nodes.len() - 1];
    let (mut left, mut right) = (Vec::new(), Vec::new());
    prims_below(&tree, root.left, &mut left);
    prims_below(&tree, root.right, &mut right);
    left.sort();
    right.sort();
    assert_eq!(left, vec![0, 1]);
    assert_eq!(right, vec![2, 3, 4]);
}

#[test]
fn closed_interval_answers_on_the_bound_do_not_replace_the_best() {
    // Probes that also accept distances equal to the interval's ends.
    let roots = vec![vec![40], vec![30], vec![30], vec![35]];
    let closed = |i: usize, lo: u64, hi: u64| roots[i].iter().copied().filter(|&t| lo <= t && t <= hi).min();
    assert_eq!(nearest_in_list(roots.len(), 0, 100, &closed), Some((1, 30)));
    assert_eq!(nearest_in_list(1, 40, 100, &closed), None);
}

#[test]
fn every_split_is_at_the_midpoint_by_lower_bound() {
    let boxes: Vec<Span> = [7u64, 3, 11, 0, 5, 9, 1, 13, 2].iter().map(|&i| Span { lo: i * 4, hi: i * 4 + 3 }).collect();
    let tree = BVHTree::from_list(&boxes);
    assert_eq!(tree.min_keys.len(), boxes.len());
    for node in &tree.nodes {
        if let (BvhChild::Node(_), BvhChild::Node(_)) = (node.left, node.right) {
            let (mut l, mut r) = (Vec::new(), Vec::new());
            prims_below(&tree, node.left, &mut l);
            prims_below(&tree, node.right, &mut r);
            // Equal extents on every axis: ties go to z.
            assert_eq!(node.extent_keys.0, node.extent_keys.2);
            assert_eq!(node.axis, 2);
            let n = l.len() + r.len();
            assert_eq!(l.len(), n / 2);
            assert_eq!(r.len(), n - n / 2);
            let key = |p: usize| tree.min_keys[p].2;
            let lmax = l.iter().map(|&p| key(p)).max().unwrap();
            let rmin = r.iter().map(|&p| key(p)).min().unwrap();
            assert!(lmax <= rmin);
        }
    }
}
