//! Nearest-hit search along one ray. Hit distances are order keys (see
//! `order`), so comparing keys compares distances. A primitive is probed
//! with an open key interval and answers with the key of its nearest hit
//! strictly inside it, if any.
use vstd::prelude::*;

verus! {

/// `t` lies strictly inside the open interval `(lo, hi)`.
pub open spec fn surrounds(lo: u64, hi: u64, t: u64) -> bool {
    lo < t && t < hi
}

/// `r` is the nearest point of `s` strictly inside `(lo, hi)`, or `None`
/// when `s` has no point there.
pub open spec fn is_nearest(s: Set<u64>, lo: u64, hi: u64, r: Option<u64>) -> bool {
    match r {
        Some(t) => s.contains(t) && surrounds(lo, hi, t) && forall|u: u64|
            #[trigger] s.contains(u) && surrounds(lo, hi, u) ==> t <= u,
        None => forall|u: u64| #[trigger] s.contains(u) ==> !surrounds(lo, hi, u),
    }
}

/// The distance component of a hit.
pub open spec fn hit_t(h: Option<(usize, u64)>) -> Option<u64> {
    match h {
        Some(p) => Some(p.1),
        None => None,
    }
}

/// The part of a probe answer that the searches take: an answer strictly
/// inside `(lo, hi)`.
pub open spec fn accepted(r: Option<u64>, lo: u64, hi: u64) -> Option<u64> {
    match r {
        Some(t) => if surrounds(lo, hi, t) {
            Some(t)
        } else {
            None
        },
        None => None,
    }
}

/// Probe answers of `prim`, as the searches take them, are nearest points
/// of `roots`: the primitive meets the ray exactly at the distances in
/// `roots(i)`. A probe that also answers on the ends of the interval
/// qualifies, since those answers are ignored.
pub open spec fn probes_nearest(
    prim: spec_fn(usize, u64, u64) -> Option<u64>,
    roots: spec_fn(usize) -> Set<u64>,
) -> bool {
    forall|i: usize, lo: u64, hi: u64|
        is_nearest(roots(i), lo, hi, accepted(#[trigger] prim(i, lo, hi), lo, hi))
}

/// Every distance at which one of the first `n` primitives meets the ray.
pub open spec fn roots_below(roots: spec_fn(usize) -> Set<u64>, n: nat) -> Set<u64> {
    Set::new(|t: u64| exists|i: usize| i < n && #[trigger] roots(i).contains(t))
}

/// Linear scan over primitives `0..n`: each is probed below the nearest
/// distance found so far, and an answer strictly inside the probed
/// interval replaces the current best (any other answer is ignored).
pub open spec fn list_hit(
    n: nat,
    lo: u64,
    hi: u64,
    prim: spec_fn(usize, u64, u64) -> Option<u64>,
) -> Option<(usize, u64)>
    decreases n,
{
    if n == 0 {
        None
    } else {
        let prev = list_hit((n - 1) as nat, lo, hi, prim);
        let bound = match prev {
            Some(p) => p.1,
            None => hi,
        };
        match prim((n - 1) as usize, lo, bound) {
            Some(t) => if surrounds(lo, bound, t) {
                Some(((n - 1) as usize, t))
            } else {
                prev
            },
            None => prev,
        }
    }
}

/// Root choice of a quadric: the near root if it lies strictly inside
/// `(lo, hi)`, else the far root if it does, else no hit.
pub fn pick_root(near: u64, far: u64, lo: u64, hi: u64) -> (r: Option<u64>)
    ensures
        r == (if surrounds(lo, hi, near) {
            Some(near)
        } else if surrounds(lo, hi, far) {
            Some(far)
        } else {
            None
        }),
{
    if lo < near && near < hi {
        Some(near)
    } else if lo < far && far < hi {
        Some(far)
    } else {
        None
    }
}

/// With the roots in order, the choice is the nearest root inside the
/// interval.
pub proof fn lemma_pick_root_nearest(near: u64, far: u64, lo: u64, hi: u64)
    requires
        near <= far,
    ensures
        is_nearest(
            set![near, far],
            lo,
            hi,
            if surrounds(lo, hi, near) {
                Some(near)
            } else if surrounds(lo, hi, far) {
                Some(far)
            } else {
                None
            },
        ),
{
    let s = set![near, far];
    assert(s.contains(near) && s.contains(far));
    assert forall|u: u64| #[trigger] s.contains(u) implies u == near || u == far by {}
}

/// The answer that a deterministic probe closure gives.
pub open spec fn probe_answer<G: Fn(usize, u64, u64) -> Option<u64>>(g: G) -> spec_fn(
    usize,
    u64,
    u64,
) -> Option<u64> {
    |i: usize, lo: u64, hi: u64| choose|r: Option<u64>| call_ensures(g, (i, lo, hi), r)
}

/// The probe closure is a function of its arguments.
pub open spec fn probe_deterministic<G: Fn(usize, u64, u64) -> Option<u64>>(g: G) -> bool {
    forall|i: usize, lo: u64, hi: u64, r1: Option<u64>, r2: Option<u64>|
        call_ensures(g, (i, lo, hi), r1) && call_ensures(g, (i, lo, hi), r2) ==> r1 == r2
}

/// The probe closure may be called on any arguments.
pub open spec fn probe_total<G: Fn(usize, u64, u64) -> Option<u64>>(g: G) -> bool {
    forall|i: usize, lo: u64, hi: u64| call_requires(g, (i, lo, hi))
}

/// Calls the probe and relates the result to `probe_answer`.
pub(crate) fn probe<G: Fn(usize, u64, u64) -> Option<u64>>(g: &G, i: usize, lo: u64, hi: u64) -> (r:
    Option<u64>)
    requires
        probe_total(*g),
        probe_deterministic(*g),
    ensures
        r == probe_answer(*g)(i, lo, hi),
{
    let r = g(i, lo, hi);
    assert(call_ensures(*g, (i, lo, hi), r));
    r
}

/// Nearest hit among primitives `0..count` over `(lo, hi)`, found by a
/// linear scan that narrows the upper bound to the best distance so far.
/// An answer outside the probed open interval is ignored, so of equally
/// near hits the first one found is kept.
pub fn nearest_in_list<G: Fn(usize, u64, u64) -> Option<u64>>(
    count: usize,
    lo: u64,
    hi: u64,
    prim_hit: &G,
) -> (r: Option<(usize, u64)>)
    requires
        probe_total(*prim_hit),
        probe_deterministic(*prim_hit),
    ensures
        r == list_hit(count as nat, lo, hi, probe_answer(*prim_hit)),
{
    let mut best: Option<(usize, u64)> = None;
    let mut closest: u64 = hi;
    let mut i: usize = 0;
    while i < count
        invariant
            i <= count,
            probe_total(*prim_hit),
            probe_deterministic(*prim_hit),
            best == list_hit(i as nat, lo, hi, probe_answer(*prim_hit)),
            closest == match best {
                Some(p) => p.1,
                None => hi,
            },
        decreases count - i,
    {
        match probe(prim_hit, i, lo, closest) {
            Some(t) => {
                if lo < t && t < closest {
                    best = Some((i, t));
                    closest = t;
                }
            },
            None => {},
        }
        i = i + 1;
    }
    best
}

/// Joining two searches: the nearest point of `a` in `(lo, hi)`, followed
/// by a search of `b` below it, gives the nearest point of `a ∪ b`.
pub proof fn lemma_nearest_join(
    a: Set<u64>,
    b: Set<u64>,
    lo: u64,
    hi: u64,
    ra: Option<u64>,
    rb: Option<u64>,
)
    requires
        is_nearest(a, lo, hi, ra),
        is_nearest(
            b,
            lo,
            match ra {
                Some(t) => t,
                None => hi,
            },
            rb,
        ),
    ensures
        is_nearest(
            a.union(b),
            lo,
            hi,
            match rb {
                Some(t) => Some(t),
                None => ra,
            },
        ),
{
    let u = a.union(b);
    match rb {
        Some(tb) => {
            assert forall|x: u64| #[trigger] u.contains(x) && surrounds(lo, hi, x) implies tb
                <= x by {
                if a.contains(x) {
                } else {
                    assert(b.contains(x));
                }
            }
        },
        None => {
            match ra {
                Some(ta) => {
                    assert forall|x: u64| #[trigger] u.contains(x) && surrounds(lo, hi, x) implies ta
                        <= x by {
                        if a.contains(x) {
                        } else {
                            assert(b.contains(x));
                        }
                    }
                },
                None => {
                    assert forall|x: u64| #[trigger] u.contains(x) implies !surrounds(lo, hi, x) by {
                        if a.contains(x) {
                        } else {
                            assert(b.contains(x));
                        }
                    }
                },
            }
        },
    }
}

/// Two nearest points of one set in one interval are the same.
pub proof fn lemma_nearest_unique(s: Set<u64>, lo: u64, hi: u64, r1: Option<u64>, r2: Option<u64>)
    requires
        is_nearest(s, lo, hi, r1),
        is_nearest(s, lo, hi, r2),
    ensures
        r1 == r2,
{
    match r1 {
        Some(t1) => {
            match r2 {
                Some(t2) => {
                    assert(s.contains(t2));
                    assert(s.contains(t1));
                },
                None => {
                    assert(s.contains(t1));
                },
            }
        },
        None => {
            match r2 {
                Some(t2) => {
                    assert(s.contains(t2));
                },
                None => {},
            }
        },
    }
}

/// The linear scan finds the nearest distance at which any of the first
/// `n` primitives meets the ray.
pub proof fn lemma_list_hit_nearest(
    n: nat,
    lo: u64,
    hi: u64,
    prim: spec_fn(usize, u64, u64) -> Option<u64>,
    roots: spec_fn(usize) -> Set<u64>,
)
    requires
        probes_nearest(prim, roots),
        n <= usize::MAX + 1,
    ensures
        is_nearest(roots_below(roots, n), lo, hi, hit_t(list_hit(n, lo, hi, prim))),
    decreases n,
{
    if n == 0 {
        assert forall|u: u64| #[trigger] roots_below(roots, 0).contains(u) implies !surrounds(
            lo,
            hi,
            u,
        ) by {}
    } else {
        let m = (n - 1) as nat;
        lemma_list_hit_nearest(m, lo, hi, prim, roots);
        let prev = list_hit(m, lo, hi, prim);
        let bound = match prev {
            Some(p) => p.1,
            None => hi,
        };
        let k = m as usize;
        assert(is_nearest(roots(k), lo, bound, accepted(prim(k, lo, bound), lo, bound)));
        lemma_nearest_join(
            roots_below(roots, m),
            roots(k),
            lo,
            hi,
            hit_t(prev),
            accepted(prim(k, lo, bound), lo, bound),
        );
        assert(roots_below(roots, n) =~= roots_below(roots, m).union(roots(k))) by {
            assert forall|t: u64| #[trigger] roots_below(roots, n).contains(t) implies roots_below(
                roots,
                m,
            ).union(roots(k)).contains(t) by {
                let i = choose|i: usize| i < n && #[trigger] roots(i).contains(t);
                if i < m {
                    assert(roots_below(roots, m).contains(t));
                }
            }
        }
    }
}


/// Of equally near hits the scan keeps the one added first: when it
/// settles on primitive `i` at distance `t`, no earlier primitive meets the
/// ray inside `(lo, t]`.
pub proof fn lemma_list_hit_first_wins(
    n: nat,
    lo: u64,
    hi: u64,
    prim: spec_fn(usize, u64, u64) -> Option<u64>,
    roots: spec_fn(usize) -> Set<u64>,
)
    requires
        probes_nearest(prim, roots),
        n <= usize::MAX + 1,
    ensures
        list_hit(n, lo, hi, prim) matches Some(p) ==> {
            &&& p.0 < n
            &&& roots(p.0).contains(p.1)
            &&& surrounds(lo, hi, p.1)
            &&& forall|j: usize, u: u64|
                j < p.0 && #[trigger] roots(j).contains(u) && lo < u ==> p.1 < u
        },
    decreases n,
{
    if n > 0 {
        let m = (n - 1) as nat;
        lemma_list_hit_first_wins(m, lo, hi, prim, roots);
        lemma_list_hit_nearest(m, lo, hi, prim, roots);
        let prev = list_hit(m, lo, hi, prim);
        let bound = match prev {
            Some(p) => p.1,
            None => hi,
        };
        let k = m as usize;
        assert(is_nearest(roots(k), lo, bound, accepted(prim(k, lo, bound), lo, bound)));
        match accepted(prim(k, lo, bound), lo, bound) {
            Some(t) => {
                assert forall|j: usize, u: u64| j < k && #[trigger] roots(j).contains(u) && lo
                    < u implies t < u by {
                    assert(roots_below(roots, m).contains(u));
                }
            },
            None => {},
        }
    }
}

} // verus!
