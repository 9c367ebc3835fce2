use imageproof::raster::{
    block_moments, compute_pixel_stats_and_residual, compute_residual_map, gradient_field, hybrid_tile_grid, prnu_block_pairs,
    GrayImage,
};

fn from_pixel(w: u32, h: u32, v: u8) -> GrayImage {
    GrayImage::new(w, h, vec![v; (w * h) as usize]).unwrap()
}

fn from_fn(w: u32, h: u32, f: impl Fn(u32, u32) -> u8) -> GrayImage {
    let mut px = Vec::with_capacity((w * h) as usize);
    for y in 0..h {
        for x in 0..w {
            px.push(f(x, y));
        }
    }
    GrayImage::new(w, h, px).unwrap()
}

#[test]
fn new_rejects_wrong_sample_count() {
    assert!(GrayImage::new(3, 3, vec![0; 8]).is_none());
    assert!(GrayImage::new(3, 3, vec![0; 9]).is_some());
    let img = from_fn(4, 2, |x, y| (x + 10 * y) as u8);
    assert_eq!(img.get_pixel(3, 1), 13);
    assert_eq!(img.width(), 4);
    assert_eq!(img.height(), 2);
}

#[test]
fn residual_map_tiny_image_returns_empty() {
    let gray = from_pixel(2, 2, 100);
    let (residual, w, h) = compute_residual_map(&gray);
    assert!(residual.is_empty());
    assert_eq!(w, 0);
    assert_eq!(h, 0);
}

#[test]
fn residual_map_flat_image_interior_is_zero() {
    let gray = from_pixel(8, 8, 100);
    let (residual, w, h) = compute_residual_map(&gray);
    assert_eq!(w, 6);
    assert_eq!(h, 6);
    assert!(residual.iter().all(|v| *v == 0));
}

#[test]
fn residual_map_no_border_zeros_in_output() {
    let gray = from_fn(8, 8, |x, y| ((x * x + y * y * 3) % 256) as u8);
    let (residual, w, h) = compute_residual_map(&gray);
    assert_eq!(w, 6);
    assert_eq!(h, 6);
    assert_eq!(residual.len(), 36);
    assert!(residual.iter().any(|v| *v != 0));
}

#[test]
fn residual_map_length_matches_interior_dimensions() {
    let gray = from_pixel(16, 24, 50);
    let (residual, w, h) = compute_residual_map(&gray);
    assert_eq!(w, 14);
    assert_eq!(h, 22);
    assert_eq!(residual.len(), 14 * 22);
}

#[test]
fn h4_residual_interior_values_match_manual_computation() {
    let gray = from_fn(5, 5, |x, y| ((x * 10 + y * 7) % 256) as u8);
    let (residual, w, h) = compute_residual_map(&gray);
    assert_eq!(w, 3);
    assert_eq!(h, 3);
    let center = gray.get_pixel(1, 1) as f32;
    let left = gray.get_pixel(0, 1) as f32;
    let right = gray.get_pixel(2, 1) as f32;
    let up = gray.get_pixel(1, 0) as f32;
    let down = gray.get_pixel(1, 2) as f32;
    let expected = center - (left + right + up + down) * 0.25;
    // The map holds residuals at four times their value.
    let actual = residual[0] as f32 * 0.25;
    assert!((actual - expected).abs() < 1e-6, "residual[0]={} expected={}", actual, expected);
}

#[test]
fn h4_3x3_image_returns_1x1_interior() {
    let gray = from_fn(3, 3, |x, y| ((x + y) * 40) as u8);
    let (residual, w, h) = compute_residual_map(&gray);
    assert_eq!(w, 1);
    assert_eq!(h, 1);
    assert_eq!(residual.len(), 1);
    // 4·80 − (40 + 120 + 40 + 120)
    assert_eq!(residual[0], 0);
}

#[test]
fn flat_image_has_zero_noise_edges_and_block_differences() {
    let stats = compute_pixel_stats_and_residual(&from_pixel(64, 64, 128));
    assert_eq!(stats.noise_sum, 0);
    assert_eq!(stats.edge_sum, 0);
    assert_eq!(stats.boundary_sum, 0);
    assert_eq!(stats.inner_sum, 0);
    assert_eq!(stats.pixel_count, 62 * 62);
    assert_eq!(stats.boundary_count + stats.inner_count, 62 * 62);
}

#[test]
fn pixel_stats_exact_values_on_small_image() {
    // 3×3 image: one interior pixel at (1,1).
    let gray = from_fn(3, 3, |x, y| [[1, 2, 3], [4, 50, 6], [7, 8, 9]][y as usize][x as usize]);
    let stats = compute_pixel_stats_and_residual(&gray);
    // residual4 = 4·50 − (4 + 6 + 2 + 8) = 180
    assert_eq!(stats.residual, vec![180]);
    assert_eq!(stats.noise_sum, 180);
    // |50 − 6| + |50 − 8|
    assert_eq!(stats.edge_sum, 44 + 42);
    // (1,1) is not on an 8×8 block boundary: |50 − 4| goes to the inner sum.
    assert_eq!(stats.inner_sum, 46);
    assert_eq!(stats.inner_count, 1);
    assert_eq!(stats.boundary_count, 0);
}

#[test]
fn block_boundary_columns_and_rows_are_separated() {
    // 10×10: interior columns and rows 1..=8; those with x == 8 or y == 8 lie on a boundary.
    let gray = from_fn(10, 10, |x, _| if x % 2 == 0 { 0 } else { 10 });
    let stats = compute_pixel_stats_and_residual(&gray);
    assert_eq!(stats.boundary_count, 8 + 8 - 1);
    assert_eq!(stats.inner_count, 64 - 15);
    assert_eq!(stats.boundary_sum, 10 * 15);
    assert_eq!(stats.inner_sum, 10 * 49);
}

#[test]
fn block_moments_of_small_and_flat_images() {
    assert!(block_moments(&from_pixel(16, 16, 100), 32).is_empty());
    let m = block_moments(&from_pixel(64, 40, 3), 32);
    assert_eq!(m, vec![(3 * 1024, 9 * 1024), (3 * 1024, 9 * 1024)]);
}

#[test]
fn block_moments_follow_block_order() {
    let gray = from_fn(4, 4, |x, y| (x + 4 * y) as u8);
    let m = block_moments(&gray, 2);
    // blocks: (0,0) {0,1,4,5}, (1,0) {2,3,6,7}, (0,1) {8,9,12,13}, (1,1) {10,11,14,15}
    assert_eq!(m, vec![(10, 42), (18, 98), (42, 458), (50, 642)]);
}

#[test]
fn hybrid_grid_requires_enough_residual() {
    let r = vec![0i32; 16 * 16];
    assert!(hybrid_tile_grid(&r, 16, 16).is_none());
    let r = vec![1i32; 24 * 30];
    let g = hybrid_tile_grid(&r, 24, 30).unwrap();
    assert_eq!(g.tile, 12);
    assert_eq!(g.blocks_x, 2);
    assert_eq!(g.blocks_y, 2);
    assert_eq!(g.abs_sums, vec![144, 144, 144, 144]);
}

#[test]
fn hybrid_tile_side_is_clamped() {
    let r = vec![-2i32; 400 * 300];
    let g = hybrid_tile_grid(&r, 400, 300).unwrap();
    assert_eq!(g.tile, 32);
    assert_eq!(g.blocks_x, 12);
    assert_eq!(g.blocks_y, 9);
    assert!(g.abs_sums.iter().all(|s| *s == 2 * 32 * 32));
    let r = vec![0i32; 200 * 200];
    assert_eq!(hybrid_tile_grid(&r, 200, 200).unwrap().tile, 25);
}

#[test]
fn prnu_pairs_need_two_blocks_per_side() {
    assert!(prnu_block_pairs(24, 24).is_empty());
    assert!(prnu_block_pairs(47, 96).is_empty());
    let pairs = prnu_block_pairs(96, 96);
    assert_eq!(pairs.len(), 3 * 4 + 4 * 3);
    let first: Vec<(usize, usize, usize, usize)> = pairs.iter().take(3).map(|p| (p.x0, p.y0, p.x1, p.y1)).collect();
    assert_eq!(first, vec![(0, 0, 24, 0), (0, 0, 0, 24), (24, 0, 48, 0)]);
    let last = pairs.last().unwrap();
    assert_eq!((last.x0, last.y0, last.x1, last.y1), (48, 72, 72, 72));
    assert!(pairs.iter().all(|p| p.x0 + 24 <= 96 && p.x1 + 24 <= 96 && p.y0 + 24 <= 96 && p.y1 + 24 <= 96));
}

#[test]
fn gradient_field_holds_central_differences() {
    assert!(gradient_field(&from_pixel(2, 5, 9)).is_empty());
    let gray = from_fn(4, 3, |x, y| (x * 3 + y * 20) as u8);
    // interior (1,1) and (2,1): right − left = 6, below − above = 40
    assert_eq!(gradient_field(&gray), vec![(6, 40), (6, 40)]);
    assert!(gradient_field(&from_pixel(9, 9, 77)).iter().all(|g| *g == (0, 0)));
}
