use media_forge::paths::{extension_of, stem_of, MPath, PathUtil};

#[test]
fn parse_drops_empty_and_dot_components() {
    let p = MPath::parse("/a//b/./c.txt");
    assert!(p.is_absolute());
    assert_eq!(p.len(), 3);
    assert_eq!(p.render(), "/a/b/c.txt");
    assert_eq!(MPath::parse("x/../y").render(), "x/../y");
}

#[test]
fn file_name_stem_and_extension_follow_std() {
    let p = MPath::parse("dir/archive.tar.gz");
    assert_eq!(p.file_name().unwrap(), "archive.tar.gz");
    assert_eq!(p.file_stem().unwrap(), "archive.tar");
    assert_eq!(p.extension().unwrap(), "gz");
    assert_eq!(MPath::parse(".hidden").extension(), None);
    assert_eq!(MPath::parse("a/..").file_name(), None);
    assert_eq!(extension_of("photo.JPG").unwrap(), "JPG");
    assert_eq!(stem_of("photo.JPG"), "photo");
}

#[test]
fn join_parent_and_strip_prefix() {
    let base = MPath::parse("/src");
    let file = MPath::parse("/src/sub/img.png");
    let rel = file.strip_prefix(&base).unwrap();
    assert_eq!(rel.render(), "sub/img.png");
    assert_eq!(MPath::parse("/dest").join(&rel).render(), "/dest/sub/img.png");
    assert_eq!(MPath::parse("/dest").join(&MPath::parse("/abs")).render(), "/abs");
    assert_eq!(file.parent().unwrap().render(), "/src/sub");
    assert!(MPath::parse("/").parent().is_none());
    assert!(MPath::parse("/other/x").strip_prefix(&base).is_none());
}

#[test]
fn with_extension_replaces_or_adds() {
    assert_eq!(MPath::parse("a/b.jpg").with_extension("avif").render(), "a/b.avif");
    assert_eq!(MPath::parse("a/b").with_extension("webp").render(), "a/b.webp");
    assert_eq!(MPath::parse("a/b.jpg").with_extension("").render(), "a/b");
    assert!(MPath::parse("a/b.c").same_as(&MPath::parse("a//b.c")));
}

#[test]
fn resolve_destination_and_skip_rule() {
    let cwd = MPath::parse("/home/u");
    assert_eq!(PathUtil::resolve_destination(&MPath::parse("out"), &cwd).render(), "/home/u/out");
    assert_eq!(PathUtil::resolve_destination(&MPath::parse("/out"), &cwd).render(), "/out");
    assert!(PathUtil::should_skip(Some(10), false));
    assert!(!PathUtil::should_skip(Some(0), false));
    assert!(!PathUtil::should_skip(Some(10), true));
    assert!(!PathUtil::should_skip(None, false));
}
