use media_forge::naming::Naming;

#[test]
fn test_truncate_unicode() {
    assert_eq!(Naming::truncate_filename("🦀🦀🦀🦀🦀", 4), "🦀...");
}

#[test]
fn test_truncate_short_filename() {
    assert_eq!(Naming::truncate_filename("short.txt", 20), "short.txt");
}

#[test]
fn test_truncate_long_filename() {
    let result = Naming::truncate_filename("very_long_filename.txt", 10);
    assert_eq!(result, "very_lo...");
    assert_eq!(result.chars().count(), 10);
}

#[test]
fn test_truncate_from_start() {
    assert_eq!(Naming::truncate_from_start("🦀🦀🦀🦀🦀", 4), "...🦀");
    assert_eq!(
        Naming::truncate_from_start("long_filename.txt", 10),
        "...ame.txt"
    );
}

#[test]
fn test_is_cover_image() {
    assert!(Naming::is_cover_image("000_cover.jpg"));
    assert!(Naming::is_cover_image("000.png"));
    assert!(Naming::is_cover_image("front_cover.webp"));
    assert!(Naming::is_cover_image("Folder.jpg"));
    assert!(!Naming::is_cover_image("page_005.jpg"));
}

#[test]
fn truncate_with_tiny_limit_keeps_part_of_the_ellipsis() {
    assert_eq!(Naming::truncate_filename("abcdef", 2), "..");
    assert_eq!(Naming::truncate_filename("abcdef", 0), "");
    assert_eq!(Naming::truncate_from_start("abcdef", 1), ".");
    assert_eq!(Naming::truncate_from_start("abcdef", 0), "");
}

#[test]
fn truncate_exact_length_is_unchanged() {
    assert_eq!(Naming::truncate_filename("abcdef", 6), "abcdef");
    assert_eq!(Naming::truncate_from_start("abcdef", 6), "abcdef");
}

#[test]
fn cover_detection_is_case_insensitive_and_uses_prefixes() {
    assert!(Naming::is_cover_image("PAGE_000.png"));
    assert!(Naming::is_cover_image("001.jpg"));
    assert!(Naming::is_cover_image("My FRONT page.jpg"));
    assert!(Naming::is_cover_image("page_0001.jpg"));
    assert!(!Naming::is_cover_image("page_0101.jpg"));
    assert!(!Naming::is_cover_image("x000.jpg"));
}

#[test]
fn cover_name_check_takes_a_lowercase_name() {
    assert!(Naming::is_cover_name("front.jpg"));
    assert!(Naming::is_cover_name("page_000.png"));
    assert!(!Naming::is_cover_name("FRONT.jpg"));
    assert!(!Naming::is_cover_name("page_010.png"));
}
