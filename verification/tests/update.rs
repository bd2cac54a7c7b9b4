use win_app_switcher::update::{is_newer, parse_tag, tag_from_location};

#[test]
fn parses_release_tags() {
    assert_eq!(parse_tag("v1.2.3"), Some((1, 2, 3)));
    assert_eq!(parse_tag("v0.0.1"), Some((0, 0, 1)));
}

#[test]
fn rejects_non_release_tags() {
    assert_eq!(parse_tag("1.2.3"), None); // no v
    assert_eq!(parse_tag("v1.2"), None); // too few parts
    assert_eq!(parse_tag("v1.2.3.4"), None); // too many
    assert_eq!(parse_tag("v1.2.3-rc1"), None); // suffix
    assert_eq!(parse_tag("ab1c4c38"), None); // dev hash
    assert_eq!(parse_tag(""), None);
}

#[test]
fn newer_only_when_both_parse_and_remote_wins() {
    assert!(is_newer("v0.2.0", "v0.1.9"));
    assert!(is_newer("v1.0.0", "v0.9.9"));
    assert!(is_newer("v0.1.10", "v0.1.9")); // numeric, not lexicographic
    assert!(!is_newer("v0.1.0", "v0.1.0")); // re-tag: no nag
    assert!(!is_newer("v0.1.0", "v0.2.0"));
    assert!(!is_newer("v1.0.0", "ab1c4c38")); // dev build: no nag
    assert!(!is_newer("garbage", "v0.1.0"));
}

#[test]
fn tag_numbers_follow_u32_parsing() {
    // Numbers are digits only: leading zeros are fine; signs, empty parts
    // and values past u32::MAX are rejected.
    assert_eq!(parse_tag("v1.02.3"), Some((1, 2, 3)));
    assert_eq!(parse_tag("v+1.2.3"), None);
    assert_eq!(parse_tag("v4294967295.0.0"), Some((4294967295, 0, 0)));
    assert_eq!(parse_tag("v4294967296.0.0"), None);
    assert_eq!(parse_tag("v1..3"), None);
    assert_eq!(parse_tag("v+.1.2"), None);
    assert_eq!(parse_tag("v-1.2.3"), None);
    assert_eq!(parse_tag("v"), None);
    assert_eq!(parse_tag("V1.2.3"), None);
    assert_eq!(parse_tag("v1.2.3."), None);
}

#[test]
fn newer_is_a_strict_order_on_examples() {
    let tags = ["v0.1.0", "v0.1.9", "v0.2.0", "v1.0.0", "dev"];
    for a in tags {
        assert!(!is_newer(a, a));
        for b in tags {
            assert!(!(is_newer(a, b) && is_newer(b, a)));
            for c in tags {
                if is_newer(a, b) && is_newer(b, c) {
                    assert!(is_newer(a, c));
                }
            }
        }
    }
}

#[test]
fn location_tag_is_after_the_last_tag_segment() {
    assert_eq!(
        tag_from_location("https://github.com/pre/win-app-switcher/releases/tag/v1.2.3").as_deref(),
        Some("v1.2.3")
    );
    assert_eq!(tag_from_location("/tag/a/tag/v2.0.0").as_deref(), Some("v2.0.0"));
    assert_eq!(tag_from_location("/tag/").as_deref(), Some(""));
    assert_eq!(tag_from_location("https://github.com/pre/win-app-switcher/releases"), None);
    assert_eq!(tag_from_location(""), None);
}

#[test]
fn formatted_tags_read_back() {
    for (x, y, z) in [(0u32, 0u32, 0u32), (1, 2, 3), (0, 10, 999), (u32::MAX, 7, 4294967295)] {
        assert_eq!(parse_tag(&format!("v{x}.{y}.{z}")), Some((x, y, z)));
    }
}
