use imageproof::dataset::{derive_perturbation_tags, is_supported_image};

// is_supported_image

#[test]
fn supported_image_jpg() {
    assert!(is_supported_image("photo.jpg"));
}

#[test]
fn supported_image_jpeg_uppercase() {
    assert!(is_supported_image("photo.JPEG"));
}

#[test]
fn supported_image_png() {
    assert!(is_supported_image("image.png"));
}

#[test]
fn supported_image_webp() {
    assert!(is_supported_image("image.webp"));
}

#[test]
fn unsupported_image_bmp() {
    assert!(!is_supported_image("image.bmp"));
}

#[test]
fn unsupported_image_gif() {
    assert!(!is_supported_image("animation.gif"));
}

#[test]
fn unsupported_image_no_extension() {
    assert!(!is_supported_image("README"));
}

#[test]
fn supported_image_in_nested_directory() {
    assert!(is_supported_image("dataset/edited/a.b/photo.PnG"));
    assert!(is_supported_image("dataset/photo.jpg/"));
    assert!(is_supported_image("dataset/photo.jpg/."));
}

#[test]
fn dotfile_has_no_extension() {
    assert!(!is_supported_image(".png"));
    assert!(!is_supported_image("dir/.jpg"));
    assert!(is_supported_image("dir/..jpg"));
}

#[test]
fn parent_or_empty_path_is_not_an_image() {
    assert!(!is_supported_image(""));
    assert!(!is_supported_image("/"));
    assert!(!is_supported_image("photos/.."));
    assert!(!is_supported_image("."));
}

// derive_perturbation_tags

#[test]
fn perturbation_tag_recompressed_in_name() {
    let tags = derive_perturbation_tags("photo_recompressed.png");
    assert!(tags.contains(&"recompressed".to_string()));
}

#[test]
fn perturbation_tag_resized_in_name() {
    let tags = derive_perturbation_tags("photo_resized_50pct.jpg");
    assert!(tags.contains(&"resized".to_string()));
}

#[test]
fn perturbation_tag_cropped_in_name() {
    let tags = derive_perturbation_tags("photo_cropped.png");
    assert!(tags.contains(&"cropped".to_string()));
}

#[test]
fn perturbation_tag_lowlight_in_name() {
    let tags = derive_perturbation_tags("scene_night_01.jpg");
    assert!(tags.contains(&"lowlight".to_string()));
}

#[test]
fn perturbation_tag_no_false_tags_on_clean_name() {
    let tags = derive_perturbation_tags("clean_photo.png");
    assert!(tags.is_empty(), "expected no tags, got: {tags:?}");
}

#[test]
fn h5_plain_jpg_no_jpeg_tag() {
    let tags = derive_perturbation_tags("photo.jpg");
    assert!(!tags.contains(&"jpeg".to_string()), "plain .jpg must not produce jpeg tag, got: {tags:?}");
}

#[test]
fn h5_plain_jpeg_no_jpeg_tag() {
    let tags = derive_perturbation_tags("photo.jpeg");
    assert!(!tags.contains(&"jpeg".to_string()), "plain .jpeg must not produce jpeg tag, got: {tags:?}");
}

#[test]
fn h5_plain_webp_no_webp_tag() {
    let tags = derive_perturbation_tags("photo.webp");
    assert!(!tags.contains(&"webp".to_string()), "plain .webp must not produce webp tag, got: {tags:?}");
}

#[test]
fn h5_recompressed_jpeg80_in_stem_gets_tag() {
    let tags = derive_perturbation_tags("photo_recompressed_jpeg80.jpg");
    assert!(tags.contains(&"recompressed".to_string()));
    assert!(tags.contains(&"jpeg".to_string()));
}

#[test]
fn h5_directory_name_ignored() {
    let tags = derive_perturbation_tags("dataset/recompressed/photo.png");
    assert!(tags.is_empty(), "directory component must not produce tags, got: {tags:?}");
}

#[test]
fn tags_are_distinct_and_in_table_order() {
    // "jpeg" and "jpg" both map to the jpeg tag; it appears once.
    let tags = derive_perturbation_tags("NIGHT_jpg_JPEG_Crop_resized.png");
    assert_eq!(
        tags,
        vec!["jpeg".to_string(), "resized".to_string(), "cropped".to_string(), "lowlight".to_string()]
    );
}

#[test]
fn tags_of_path_without_file_name_are_empty() {
    assert!(derive_perturbation_tags("night/..").is_empty());
    assert!(derive_perturbation_tags("").is_empty());
}
