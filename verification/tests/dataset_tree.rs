use imageproof::dataset::{collect_image_files, FsNode};

fn file(p: &str) -> FsNode {
    FsNode::File(p.to_string())
}

#[test]
fn collects_only_supported_files() {
    let root = FsNode::Dir(vec![file("root/photo.jpg"), file("root/readme.txt")]);
    let out = collect_image_files(&root);
    assert_eq!(out.images, vec!["root/photo.jpg".to_string()]);
    assert!(out.skipped_symlinks.is_empty());
}

#[test]
fn collects_nested_directories_depth_first() {
    let root = FsNode::Dir(vec![
        file("root/a.png"),
        FsNode::Dir(vec![file("root/sub/b.png"), file("root/sub/c.txt")]),
        file("root/d.webp"),
    ]);
    let out = collect_image_files(&root);
    assert_eq!(
        out.images,
        vec!["root/a.png".to_string(), "root/sub/b.png".to_string(), "root/d.webp".to_string()]
    );
}

#[test]
fn skips_symbolic_links() {
    let root = FsNode::Dir(vec![
        file("root/real.png"),
        FsNode::Symlink("root/link.png".to_string()),
        FsNode::Symlink("root/link_dir".to_string()),
    ]);
    let out = collect_image_files(&root);
    assert_eq!(out.images, vec!["root/real.png".to_string()]);
    assert_eq!(out.skipped_symlinks, vec!["root/link.png".to_string(), "root/link_dir".to_string()]);
}

#[test]
fn empty_directory_yields_nothing() {
    let out = collect_image_files(&FsNode::Dir(vec![]));
    assert!(out.images.is_empty());
    assert!(out.skipped_symlinks.is_empty());
}
