//! The recursive radiance estimator, over any ray and color types. Tracing
//! a ray against the scene and the material interaction at the hit are
//! handed in as one closure, color multiplication as another; both may
//! draw random numbers, so the contract speaks of every possible outcome.
use vstd::prelude::*;

verus! {

/// What a material does with a ray that hits it.
#[derive(Debug)]
pub enum MaterialInteractResult<R, C> {
    /// The ray goes on as `ray`, its radiance scaled by `attenuation`.
    Scatter { attenuation: C, ray: R },
    /// The surface emits `color` and the path ends.
    Emitted { color: C },
    /// The ray is absorbed.
    Absorbed,
}

/// `r` is a radiance that a path of at most `depth` bounces from `ray` can
/// carry: black once the depth is spent, the background on a miss, the
/// emission at a light, black when absorbed, and after a scatter the
/// attenuation times a radiance of the scattered ray one bounce shallower.
pub open spec fn radiance<R, C, T, M>(
    trace: T,
    times: M,
    background: C,
    black: C,
    depth: nat,
    ray: R,
    r: C,
) -> bool where
    T: Fn(&R) -> Option<MaterialInteractResult<R, C>>,
    M: Fn(&C, &C) -> C,
    decreases depth,
{
    if depth == 0 {
        r == black
    } else {
        exists|o: Option<MaterialInteractResult<R, C>>|
            #[trigger] call_ensures(trace, (&ray,), o) && match o {
                None => r == background,
                Some(MaterialInteractResult::Emitted { color }) => r == color,
                Some(MaterialInteractResult::Absorbed) => r == black,
                Some(MaterialInteractResult::Scatter { attenuation, ray: next }) => exists|rest: C|
                    radiance(trace, times, background, black, (depth - 1) as nat, next, rest)
                        && #[trigger] call_ensures(times, (&attenuation, &rest), r),
            }
    }
}

/// Radiance carried back along `ray` with at most `depth` bounces left.
/// `trace` intersects the ray with the scene and applies the material at
/// the nearest hit (`None` on a miss); `times` multiplies two colors.
pub fn ray_color<R, C, T, M>(
    ray: &R,
    depth: u32,
    trace: &T,
    times: &M,
    background: C,
    black: C,
) -> (r: C) where
    C: Copy,
    T: Fn(&R) -> Option<MaterialInteractResult<R, C>>,
    M: Fn(&C, &C) -> C,

    requires
        forall|x: &R| call_requires(*trace, (x,)),
        forall|a: &C, b: &C| call_requires(*times, (a, b)),
    ensures
        radiance(*trace, *times, background, black, depth as nat, *ray, r),
    decreases depth,
{
    if depth == 0 {
        return black;
    }
    let o = trace(ray);
    assert(call_ensures(*trace, (ray,), o));
    match o {
        None => background,
        Some(MaterialInteractResult::Emitted { color }) => color,
        Some(MaterialInteractResult::Absorbed) => black,
        Some(MaterialInteractResult::Scatter { attenuation, ray: next }) => {
            let rest = ray_color(&next, depth - 1, trace, times, background, black);
            let r = times(&attenuation, &rest);
            assert(call_ensures(*times, (&attenuation, &rest), r));
            r
        },
    }
}


/// The outcome is a hit on a light.
pub open spec fn emits<R, C>(o: Option<MaterialInteractResult<R, C>>) -> bool {
    match o {
        Some(MaterialInteractResult::Emitted { .. }) => true,
        _ => false,
    }
}

/// Energy bound of a scene without light: when no hit emits, the
/// background is black and any color times black is black, every radiance
/// estimate is black, whatever the depth.
pub proof fn lemma_dark_scene_is_black<R, C, T, M>(
    trace: T,
    times: M,
    black: C,
    depth: nat,
    ray: R,
    r: C,
) where
    T: Fn(&R) -> Option<MaterialInteractResult<R, C>>,
    M: Fn(&C, &C) -> C,

    requires
        forall|x: &R, o: Option<MaterialInteractResult<R, C>>|
            call_ensures(trace, (x,), o) ==> !emits(o),
        forall|a: &C, b: &C, c: C| #[trigger] call_ensures(times, (a, b), c) && *b == black ==> c
            == black,
        radiance(trace, times, black, black, depth, ray, r),
    ensures
        r == black,
    decreases depth,
{
    if depth > 0 {
        let o = choose|o: Option<MaterialInteractResult<R, C>>|
            #[trigger] call_ensures(trace, (&ray,), o) && match o {
                None => r == black,
                Some(MaterialInteractResult::Emitted { color }) => r == color,
                Some(MaterialInteractResult::Absorbed) => r == black,
                Some(MaterialInteractResult::Scatter { attenuation, ray: next }) => exists|rest: C|
                    radiance(trace, times, black, black, (depth - 1) as nat, next, rest)
                        && #[trigger] call_ensures(times, (&attenuation, &rest), r),
            };
        assert(!emits(o));
        match o {
            Some(MaterialInteractResult::Scatter { attenuation, ray: next }) => {
                let rest = choose|rest: C|
                    radiance(trace, times, black, black, (depth - 1) as nat, next, rest)
                        && #[trigger] call_ensures(times, (&attenuation, &rest), r);
                lemma_dark_scene_is_black(trace, times, black, (depth - 1) as nat, next, rest);
            },
            _ => {},
        }
    }
}


/// With a fixed source of randomness tracing and multiplying are functions
/// of their arguments, and then the estimate is too: two renders of the same
/// ray at the same depth give the same color.
pub proof fn lemma_radiance_deterministic<R, C, T, M>(
    trace: T,
    times: M,
    background: C,
    black: C,
    depth: nat,
    ray: R,
    r1: C,
    r2: C,
) where
    T: Fn(&R) -> Option<MaterialInteractResult<R, C>>,
    M: Fn(&C, &C) -> C,

    requires
        forall|x: &R, o1: Option<MaterialInteractResult<R, C>>, o2: Option<
            MaterialInteractResult<R, C>,
        >| call_ensures(trace, (x,), o1) && call_ensures(trace, (x,), o2) ==> o1 == o2,
        forall|a: &C, b: &C, c1: C, c2: C|
            call_ensures(times, (a, b), c1) && call_ensures(times, (a, b), c2) ==> c1 == c2,
        radiance(trace, times, background, black, depth, ray, r1),
        radiance(trace, times, background, black, depth, ray, r2),
    ensures
        r1 == r2,
    decreases depth,
{
    if depth > 0 {
        let o1 = choose|o: Option<MaterialInteractResult<R, C>>|
            #[trigger] call_ensures(trace, (&ray,), o) && match o {
                None => r1 == background,
                Some(MaterialInteractResult::Emitted { color }) => r1 == color,
                Some(MaterialInteractResult::Absorbed) => r1 == black,
                Some(MaterialInteractResult::Scatter { attenuation, ray: next }) => exists|rest: C|
                    radiance(trace, times, background, black, (depth - 1) as nat, next, rest)
                        && #[trigger] call_ensures(times, (&attenuation, &rest), r1),
            };
        let o2 = choose|o: Option<MaterialInteractResult<R, C>>|
            #[trigger] call_ensures(trace, (&ray,), o) && match o {
                None => r2 == background,
                Some(MaterialInteractResult::Emitted { color }) => r2 == color,
                Some(MaterialInteractResult::Absorbed) => r2 == black,
                Some(MaterialInteractResult::Scatter { attenuation, ray: next }) => exists|rest: C|
                    radiance(trace, times, background, black, (depth - 1) as nat, next, rest)
                        && #[trigger] call_ensures(times, (&attenuation, &rest), r2),
            };
        assert(o1 == o2);
        match o1 {
            Some(MaterialInteractResult::Scatter { attenuation, ray: next }) => {
                let rest1 = choose|rest: C|
                    radiance(trace, times, background, black, (depth - 1) as nat, next, rest)
                        && #[trigger] call_ensures(times, (&attenuation, &rest), r1);
                let rest2 = choose|rest: C|
                    radiance(trace, times, background, black, (depth - 1) as nat, next, rest)
                        && #[trigger] call_ensures(times, (&attenuation, &rest), r2);
                lemma_radiance_deterministic(
                    trace,
                    times,
                    background,
                    black,
                    (depth - 1) as nat,
                    next,
                    rest1,
                    rest2,
                );
            },
            _ => {},
        }
    }
}

} // verus!
