use bloggen::config::Config;

#[test]
fn builder_pattern() {
    let config = Config::new()
        .content_dir("./src")
        .max_image_width(800)
        .brand_name("My Blog");

    assert_eq!(config.content_dir, "./src");
    assert_eq!(config.max_image_width, 800);
    assert_eq!(config.brand_name, "My Blog");
}

#[test]
fn derived_paths() {
    let config = Config::new().public_dir("./out");
    assert_eq!(config.posts_dir(), "./out/posts");
    assert_eq!(config.images_dir(), "./out/images");
}

#[test]
fn default_values() {
    let config = Config::new();
    assert_eq!(config.content_dir, "../content");
    assert_eq!(config.public_dir, "../public");
    assert_eq!(config.max_image_width, 1200);
    assert_eq!(config.timezone_offset_hours, 8);
    assert_eq!(config.brand_name, "CODE A DUCK");
    assert!(config.inline_css);
}

#[test]
fn tags_dir_derived() {
    let config = Config::new().public_dir("site");
    assert_eq!(config.tags_dir(), "site/tags");
}
