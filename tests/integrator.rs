use raytracer::integrator::{ray_color, MaterialInteractResult};

type Color = (f64, f64, f64);

fn times(a: &Color, b: &Color) -> Color {
    (a.0 * b.0, a.1 * b.1, a.2 * b.2)
}

const BLACK: Color = (0.0, 0.0, 0.0);

#[test]
fn a_miss_returns_the_background_exactly() {
    let background = (0.7, 0.8, 1.0);
    let trace = |_r: &u32| -> Option<MaterialInteractResult<u32, Color>> { None };
    assert_eq!(ray_color(&0u32, 1, &trace, &times, background, BLACK), background);
    assert_eq!(ray_color(&0u32, 50, &trace, &times, background, BLACK), background);
}

#[test]
fn a_light_hit_directly_returns_its_emission() {
    let trace = |_r: &u32| Some(MaterialInteractResult::<u32, Color>::Emitted { color: (4.0, 4.0, 4.0) });
    assert_eq!(ray_color(&0u32, 1, &trace, &times, BLACK, BLACK), (4.0, 4.0, 4.0));
}

#[test]
fn no_depth_left_is_black() {
    let trace = |_r: &u32| Some(MaterialInteractResult::<u32, Color>::Emitted { color: (4.0, 4.0, 4.0) });
    assert_eq!(ray_color(&0u32, 0, &trace, &times, (1.0, 1.0, 1.0), BLACK), BLACK);
}

#[test]
fn absorbed_rays_are_black() {
    let trace = |_r: &u32| Some(MaterialInteractResult::<u32, Color>::Absorbed);
    assert_eq!(ray_color(&0u32, 5, &trace, &times, (1.0, 1.0, 1.0), BLACK), BLACK);
}

#[test]
fn scatter_multiplies_attenuation_along_the_path() {
    // Ray n scatters into ray n + 1 with attenuation 0.5 until ray 2 misses.
    let trace = |r: &u32| {
        if *r < 2 {
            Some(MaterialInteractResult::Scatter { attenuation: (0.5, 0.5, 0.5), ray: *r + 1 })
        } else {
            None
        }
    };
    let bg = (1.0, 0.5, 0.25);
    assert_eq!(ray_color(&0u32, 10, &trace, &times, bg, BLACK), (0.25, 0.125, 0.0625));
    // With only two bounces left the second scatter runs out of depth.
    assert_eq!(ray_color(&0u32, 2, &trace, &times, bg, BLACK), BLACK);
}

#[test]
fn a_lightless_scene_on_black_stays_black() {
    let trace = |r: &u32| Some(MaterialInteractResult::Scatter { attenuation: (0.9, 0.8, 0.7), ray: *r + 1 });
    for depth in [1, 2, 10, 50] {
        assert_eq!(ray_color(&0u32, depth, &trace, &times, BLACK, BLACK), BLACK);
    }
}
