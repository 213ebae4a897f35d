use raytracer::config::{Args, OutputQuality, Scene};
use raytracer::noise::{LatticeHash, POINT_COUNT};
use raytracer::order::{bits_of_key, order_key};
use raytracer::render::pixel_of;
use raytracer::texture::{checker_is_even, ImageTexture, SolidColorTexture};

fn is_perm(v: &[usize]) -> bool {
    let mut s = v.to_vec();
    s.sort();
    s == (0..POINT_COUNT).collect::<Vec<usize>>()
}

#[test]
fn generated_tables_are_permutations() {
    for _ in 0..5 {
        assert!(is_perm(&LatticeHash::generate_perm()));
    }
    let h = LatticeHash::new();
    assert!(is_perm(&h.perm_x) && is_perm(&h.perm_y) && is_perm(&h.perm_z));
}

#[test]
fn lattice_hash_wraps_cells_and_xors_tables() {
    let h = LatticeHash::new();
    let expect = h.perm_x[3] ^ h.perm_y[255] ^ h.perm_z[0];
    assert_eq!(h.hash(3, -1, 256), expect);
    assert_eq!(h.hash(259, 255, -256), expect);
    assert!(h.hash(-7, 1000, 12) < POINT_COUNT);
}

#[test]
fn order_keys_follow_float_order() {
    let xs = [f64::NEG_INFINITY, -3.5, -1e-300, -0.0, 0.0, 1e-300, 0.001, 2.0, f64::INFINITY];
    for w in xs.windows(2) {
        assert!(order_key(w[0].to_bits()) < order_key(w[1].to_bits()));
    }
    assert_eq!(order_key(0.0f64.to_bits()), 1u64 << 63);
    assert_eq!(order_key((-0.0f64).to_bits()), (1u64 << 63) - 1);
    for x in xs {
        assert_eq!(f64::from_bits(bits_of_key(order_key(x.to_bits()))).to_bits(), x.to_bits());
    }
}

#[test]
fn checker_parity() {
    assert!(checker_is_even(0, 0));
    assert!(!checker_is_even(1, 0));
    assert!(!checker_is_even(-1, 0));
    assert!(checker_is_even(-1, -1));
    assert!(checker_is_even(i32::MAX, i32::MAX));
    assert!(!checker_is_even(i32::MIN, i32::MAX));
}

#[test]
fn solid_color_is_constant() {
    let t = SolidColorTexture::new((0.2, 0.3, 0.4));
    assert_eq!(t.value(), (0.2, 0.3, 0.4));
    assert_eq!(t.albedo, (0.2, 0.3, 0.4));
}

#[test]
fn image_texture_needs_three_bytes_per_texel() {
    assert!(ImageTexture::from_rgb(2, 2, vec![0; 11]).is_none());
    assert!(ImageTexture::from_rgb(2, 2, vec![0; 12]).is_some());
    assert!(ImageTexture::from_rgb(0, 5, vec![]).is_some());
}

#[test]
fn image_texels_clamp_to_the_last_row_and_column() {
    let data: Vec<u8> = (0..18u8).collect();
    let t = ImageTexture::from_rgb(3, 2, data).unwrap();
    assert_eq!(t.texel(0, 0), Some((0, 1, 2)));
    assert_eq!(t.texel(1, 1), Some((12, 13, 14)));
    assert_eq!(t.texel(3, 0), Some((6, 7, 8)));
    assert_eq!(t.texel(9, 9), Some((15, 16, 17)));
}

#[test]
fn empty_image_has_no_texel() {
    let t = ImageTexture::from_rgb(0, 0, vec![]).unwrap();
    assert_eq!(t.texel(0, 0), None);
    let t = ImageTexture::from_rgb(4, 0, vec![]).unwrap();
    assert_eq!(t.texel(1, 0), None);
}

#[test]
fn pixel_schedule_names_each_pixel_once() {
    let (w, h) = (4u32, 3u32);
    let mut seen = vec![false; (w * h) as usize];
    for i in 0..(w as u64 * h as u64) {
        let (x, y) = pixel_of(i, w, h);
        assert!(x < w && y < h);
        let cell = (y * w + x) as usize;
        assert!(!seen[cell]);
        seen[cell] = true;
    }
    assert!(seen.iter().all(|&s| s));
    assert_eq!(pixel_of(5, 4, 3), (1, 1));
    assert_eq!(pixel_of(11, 4, 3), (3, 2));
}

#[test]
fn quality_follows_the_arguments() {
    let args = Args { depth: 50, image_width: 600, image_height: 400, samples_per_pixel: 10, scene: Scene::Quads };
    let q = OutputQuality::from_args(&args);
    assert_eq!(q, OutputQuality { image_width: 600, image_height: 400, samples_per_pixel: 10, max_depth: 50 });
    assert_eq!(q.pixel_count(), 240_000);
    let big = OutputQuality { image_width: u32::MAX, image_height: u32::MAX, samples_per_pixel: 1, max_depth: 1 };
    assert_eq!(big.pixel_count(), u32::MAX as u64 * u32::MAX as u64);
}

#[test]
fn generated_tables_are_shuffled() {
    let first = LatticeHash::generate_perm();
    let identity: Vec<usize> = (0..POINT_COUNT).collect();
    assert_ne!(first, identity);
    let draws: Vec<Vec<usize>> = (0..4).map(|_| LatticeHash::generate_perm()).collect();
    assert!(draws.iter().any(|d| *d != first));
}

#[test]
fn shuffle_with_identity_draws_keeps_the_order() {
    let draws: Vec<usize> = (0..POINT_COUNT).collect();
    assert_eq!(LatticeHash::shuffle_with(&draws), (0..POINT_COUNT).collect::<Vec<usize>>());
}

#[test]
fn shuffle_with_zero_draws_rotates_left() {
    let draws = vec![0usize; POINT_COUNT];
    let mut expect: Vec<usize> = (1..POINT_COUNT).collect();
    expect.push(0);
    assert_eq!(LatticeHash::shuffle_with(&draws), expect);
}

#[test]
fn shuffle_with_swaps_each_position_with_its_draw() {
    let mut draws: Vec<usize> = (0..POINT_COUNT).collect();
    draws[255] = 3;
    draws[3] = 1;
    let r = LatticeHash::shuffle_with(&draws);
    // Swap 255 <-> 3 first, then 3 <-> 1.
    assert_eq!(r[255], 3);
    assert_eq!(r[3], 1);
    assert_eq!(r[1], 255);
    assert_eq!(r[0], 0);
    assert_eq!(r[2], 2);
}
