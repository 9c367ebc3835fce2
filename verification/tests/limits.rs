use imageproof::config::{MAX_FILE_SIZE_BYTES, MAX_IMAGE_DIMENSION};

#[test]
fn max_file_size_is_50mb() {
    assert_eq!(MAX_FILE_SIZE_BYTES, 50 * 1024 * 1024);
}

#[test]
fn max_image_dimension_is_16384() {
    assert_eq!(MAX_IMAGE_DIMENSION, 16_384);
}

#[test]
fn synthetic_base_weights_sum_to_one() {
    let weights: &[f32] = &[0.18, 0.15, 0.08, 0.16, 0.12, 0.09, 0.07, 0.04, 0.02, 0.09];
    let sum: f32 = weights.iter().sum();
    assert!((sum - 1.0).abs() < 1e-6, "synthetic_base weights sum to {sum}, expected 1.0");
}

#[test]
fn edited_base_weights_sum_to_one() {
    let weights: &[f32] = &[0.26, 0.05, 0.13, 0.07, 0.11, 0.04, 0.18, 0.13, 0.03];
    let sum: f32 = weights.iter().sum();
    assert!((sum - 1.0).abs() < 1e-6, "edited_base weights sum to {sum}, expected 1.0");
}

#[test]
fn authentic_likelihood_coefficients_sum_to_one() {
    let coefficients: &[f32] = &[0.55, 0.45];
    let sum: f32 = coefficients.iter().sum();
    assert!((sum - 1.0).abs() < 1e-6, "authentic_likelihood coefficients sum to {sum}, expected ≤1.0");
}
