use bloggen::error::{BuildError, InvalidTagReason};
use bloggen::tag::Tag;

#[test]
fn valid_tag() {
    let tag = Tag::new("Rust").unwrap();
    assert_eq!(tag.as_str(), "Rust");
}

#[test]
fn trims_whitespace() {
    let tag = Tag::new("  Programming  ").unwrap();
    assert_eq!(tag.as_str(), "Programming");
}

#[test]
fn rejects_empty() {
    assert!(Tag::new("").is_err());
    assert!(Tag::new("   ").is_err());
}

#[test]
fn rejects_html_chars() {
    assert!(Tag::new("<script>").is_err());
    assert!(Tag::new("tag&name").is_err());
    assert!(Tag::new("tag\"name").is_err());
}

#[test]
fn rejects_too_long() {
    let long = "a".repeat(51);
    assert!(Tag::new(&long).is_err());
}

#[test]
fn lowercase_for_urls() {
    let tag = Tag::new("GameDev").unwrap();
    assert_eq!(tag.to_lowercase(), "gamedev");
}

#[test]
fn accepts_fifty_characters() {
    let exact = "b".repeat(50);
    let tag = Tag::new(&exact).unwrap();
    assert_eq!(tag.as_str(), exact);
}

#[test]
fn empty_reason_reported() {
    match Tag::new("   ") {
        Err(BuildError::InvalidTag { tag, reason }) => {
            assert_eq!(tag, "   ");
            assert_eq!(reason, InvalidTagReason::Empty);
        }
        other => panic!("expected InvalidTag, got {:?}", other),
    }
}

#[test]
fn too_long_reason_reported() {
    let long = "c".repeat(60);
    match Tag::new(&long) {
        Err(BuildError::InvalidTag { reason, .. }) => {
            assert_eq!(reason, InvalidTagReason::TooLong);
        }
        other => panic!("expected InvalidTag, got {:?}", other),
    }
}

#[test]
fn forbidden_chars_take_precedence_over_length() {
    // Longer than the cap *and* holding a forbidden character: the
    // character reason wins.
    let mut long = "d".repeat(60);
    long.push('/');
    match Tag::new(&long) {
        Err(BuildError::InvalidTag { reason, .. }) => {
            assert_eq!(reason, InvalidTagReason::ForbiddenChars);
        }
        other => panic!("expected InvalidTag, got {:?}", other),
    }
}

#[test]
fn rejects_slash() {
    match Tag::new("a/b") {
        Err(BuildError::InvalidTag { reason, .. }) => {
            assert_eq!(reason, InvalidTagReason::ForbiddenChars);
        }
        other => panic!("expected InvalidTag, got {:?}", other),
    }
}
