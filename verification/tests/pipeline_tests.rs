use bloggen::config::Config;
use bloggen::error::{BuildError, BuildResult};
use bloggen::image::{
    cached_image_result, dest_rel_path_for, plan_optimize, ImageAction, OptimizedImage,
};
use bloggen::parser::{extract_metadata, first_image_url};
use bloggen::pipeline::{
    build_listing_pages, discover_posts, merge_parse_results, parse_post, sort_posts_desc,
    to_post_list_item,
};
use bloggen::template::{render_post_meta, render_post_list, template, RenderContext};
use bloggen::tag::Tag;

#[test]
fn extracts_title_and_tags() {
    let md = "# Hello\nTags: a, b\n\nbody\n";
    let (meta, warnings) = extract_metadata(md, "fallback");
    assert_eq!(meta.raw_title, "Hello");
    assert_eq!(meta.title.as_str(), "Hello");
    let tags: Vec<&str> = meta.tags.iter().map(|t| t.as_str()).collect();
    assert_eq!(tags, vec!["a", "b"]);
    assert!(warnings.is_empty());
}

#[test]
fn missing_title_uses_fallback() {
    let md = "no heading here\n";
    let (meta, _) = extract_metadata(md, "my-post");
    assert_eq!(meta.raw_title, "my-post");
}

#[test]
fn title_is_escaped_once() {
    let md = "# a<b\n";
    let (meta, _) = extract_metadata(md, "x");
    assert_eq!(meta.raw_title, "a<b");
    assert_eq!(meta.title.as_str(), "a&lt;b");
}

#[test]
fn invalid_tags_are_dropped_with_warning() {
    let md = "# T\nTags: good, <bad>, also-good\n";
    let (meta, warnings) = extract_metadata(md, "x");
    let tags: Vec<&str> = meta.tags.iter().map(|t| t.as_str()).collect();
    assert_eq!(tags, vec!["good", "also-good"]);
    assert_eq!(warnings.len(), 1);
    assert!(matches!(&warnings[0], BuildError::InvalidTag { .. }));
}

#[test]
fn handles_crlf_line_endings() {
    let md = "# Title\r\nTags: a, b\r\nbody\r\n";
    let (meta, warnings) = extract_metadata(md, "x");
    assert_eq!(meta.raw_title, "Title");
    let tags: Vec<&str> = meta.tags.iter().map(|t| t.as_str()).collect();
    assert_eq!(tags, vec!["a", "b"]);
    assert!(warnings.is_empty());
}

#[test]
fn indented_tag_line_is_recognized() {
    let md = "# T\n   Tags: one\n";
    let (meta, _) = extract_metadata(md, "x");
    let tags: Vec<&str> = meta.tags.iter().map(|t| t.as_str()).collect();
    assert_eq!(tags, vec!["one"]);
}

#[test]
fn duplicate_tags_kept_per_post() {
    let md = "Tags: a, a\n";
    let (meta, _) = extract_metadata(md, "x");
    let tags: Vec<&str> = meta.tags.iter().map(|t| t.as_str()).collect();
    assert_eq!(tags, vec!["a", "a"]);
}

#[test]
fn finds_first_image_reference() {
    let md = "intro\n\n![alt](img/pic.png \"300\")\n\n![b](z.png)\n";
    assert_eq!(first_image_url(md), Some("img/pic.png".to_string()));
    assert_eq!(first_image_url("no images"), None);
}

#[test]
fn parse_post_formats_display_date() {
    // 1700000000 = 2023-11-14T22:13:20Z; at GMT+8 that is the next morning.
    let (post, _) = parse_post("stem", "# X\n", 1700000000, 8);
    assert_eq!(post.display_date, "2023.11.15 06:13");
    assert_eq!(post.file_stem, "stem");
}

#[test]
fn discover_rejects_unreadable_dir() {
    // Total failure: the content directory cannot be listed.
    let r = discover_posts(None, "../content");
    match r {
        Err(BuildError::ContentNotReadable { path, .. }) => assert_eq!(path, "../content"),
        other => panic!("expected ContentNotReadable, got {:?}", other),
    }
}

#[test]
fn discover_filters_markdown() {
    let listing = vec![
        "a.md".to_string(),
        "style.css".to_string(),
        "b.md".to_string(),
        ".md".to_string(),
        "notes.txt".to_string(),
    ];
    let files = discover_posts(Some(listing), "c").unwrap();
    assert_eq!(files, vec!["a.md".to_string(), "b.md".to_string()]);
}

#[test]
fn finalize_reports_partial_success() {
    // Partial failure: one of three files unreadable; the build succeeds.
    let md = "# A\nTags: t\n";
    let (p1, _) = parse_post("one", md, 0, 0);
    let (p2, _) = parse_post("two", md, 0, 0);
    let results = vec![
        Ok(p1),
        Err(BuildError::ParseFailed { path: "three.md".to_string(), message: "io".to_string() }),
        Ok(p2),
    ];
    let (posts, _tags, failures) = merge_parse_results(results);
    assert_eq!(posts.len(), 2);
    assert_eq!(failures.len(), 1);

    let mut result = BuildResult::new();
    for _ in &posts {
        result.record_success();
    }
    for f in failures {
        result.record_failure(f);
    }
    let summary = result.finalize().expect("partial failure is still success");
    assert_eq!(summary.posts_built, 2);
    assert_eq!(summary.posts_skipped, 1);
}

#[test]
fn finalize_aborts_on_fatal_error() {
    let mut result = BuildResult::new();
    result.record_failure(BuildError::ContentNotReadable {
        path: "c".to_string(),
        message: "denied".to_string(),
    });
    match result.finalize() {
        Err(BuildError::ContentNotReadable { .. }) => {}
        other => panic!("expected fatal ContentNotReadable, got {:?}", other),
    }
}

#[test]
fn finalize_rejects_zero_successes() {
    let mut result = BuildResult::new();
    result.record_failure(BuildError::ParseFailed {
        path: "a.md".to_string(),
        message: "bad".to_string(),
    });
    match result.finalize() {
        Err(BuildError::NoValidPosts { .. }) => {}
        other => panic!("expected NoValidPosts, got {:?}", other),
    }
}

#[test]
fn finalize_empty_build_is_success() {
    let summary = BuildResult::new().finalize().unwrap();
    assert_eq!(summary.posts_built, 0);
    assert_eq!(summary.posts_skipped, 0);
}

#[test]
fn error_severities() {
    let rec = BuildError::ImageOptFailed { path: "p".to_string(), message: "m".to_string() };
    assert!(rec.is_recoverable());
    assert!(!rec.is_internal());
    let fatal = BuildError::OutputNotWritable { path: "p".to_string(), message: "m".to_string() };
    assert!(!fatal.is_recoverable());
    let internal = BuildError::Internal("bug".to_string());
    assert!(!internal.is_recoverable());
    assert!(internal.is_internal());
}

#[test]
fn cache_hit_skips_reencode() {
    // Image cache idempotence, observed through an encode counter: the
    // first build encodes, the second build over unchanged sources reads
    // the cache and encodes nothing, reporting the same dimensions.
    let src_mtime = 1000i64;
    let mut encodes = 0;

    // First build: destination absent.
    let plan1 = plan_optimize("photo.png", true, false, Some(src_mtime), None);
    assert_eq!(plan1, ImageAction::Reencode);
    encodes += 1;
    let dims_written = (640u32, 480u32);
    let dest_mtime = 1001i64; // written after the source

    // Second build, nothing changed.
    let plan2 = plan_optimize("photo.png", true, true, Some(src_mtime), Some(dest_mtime));
    assert_eq!(plan2, ImageAction::ReadCached);
    let rel = dest_rel_path_for("photo.png").unwrap();
    let cached = cached_image_result(rel, Some(dims_written));
    assert_eq!(encodes, 1);
    assert_eq!((cached.width, cached.height), dims_written);
    assert_eq!(cached.rel_path, "images/photo.webp");
}

#[test]
fn stale_cache_reencodes() {
    let plan = plan_optimize("photo.png", true, true, Some(2000), Some(1500));
    assert_eq!(plan, ImageAction::Reencode);
}

#[test]
fn external_and_missing_images_touch_nothing() {
    assert_eq!(
        plan_optimize("https://a.com/x.png", true, true, Some(1), Some(2)),
        ImageAction::External
    );
    assert_eq!(plan_optimize("gone.png", false, false, None, None), ImageAction::Missing);
    assert_eq!(plan_optimize("", true, false, None, None), ImageAction::Invalid);
}

#[test]
fn destination_naming() {
    assert_eq!(dest_rel_path_for("photo.png").unwrap(), "images/photo.webp");
    assert_eq!(dest_rel_path_for("dir/sub/pic.jpeg").unwrap(), "images/pic.webp");
    assert_eq!(dest_rel_path_for("noext").unwrap(), "images/noext.webp");
    assert!(matches!(dest_rel_path_for(""), Err(BuildError::Internal(_))));
    let opt = OptimizedImage::external("https://x/y.png");
    assert!(opt.is_external());
    let missing = OptimizedImage::missing("a.png");
    assert!(!missing.is_external());
    assert_eq!(missing.width, 0);
}

#[test]
fn cached_read_failure_degrades() {
    let r = cached_image_result("images/p.webp".to_string(), None);
    assert_eq!((r.width, r.height), (0, 0));
    assert_eq!(r.rel_path, "images/p.webp");
}

#[test]
fn sorts_posts_by_filename_descending() {
    let mds = ["# A\n", "# B\n", "# C\n"];
    let stems = ["2023-old", "2025-new", "2024-mid"];
    let mut items = Vec::new();
    for (stem, md) in stems.iter().zip(mds.iter()) {
        let (p, _) = parse_post(stem, md, 0, 0);
        items.push(to_post_list_item(&p));
    }
    let sorted = sort_posts_desc(items);
    let names: Vec<&str> = sorted.iter().map(|p| p.filename.as_str()).collect();
    assert_eq!(
        names,
        vec!["posts/2025-new.html", "posts/2024-mid.html", "posts/2023-old.html"]
    );
}

#[test]
fn meta_header_renders_exactly() {
    let tags = vec![Tag::new("a").unwrap()];
    let html = render_post_meta("2024.01.01 10:00", &tags);
    assert_eq!(
        html,
        "<div class=\"meta\"><span class=\"meta-item\">UPLOAD: 2024.01.01 10:00</span> <span class=\"meta-item\"><span class=\"tag\">#a</span></span></div>"
    );
}

#[test]
fn end_to_end_listing_generation() {
    // Two markdown files: one with a title, tags and an image; one with
    // no title and an invalid tag.
    let md1 = "# Hello\nTags: a, b\n\n![pic](photo.png)\n";
    let md2 = "plain text\nTags: <bad>\n";
    let (p1, w1) = parse_post("0001-hello", md1, 1700000000, 8);
    let (p2, w2) = parse_post("0002-second", md2, 1700000000, 8);
    assert!(w1.is_empty());
    assert_eq!(w2.len(), 1);
    assert_eq!(p1.first_image_url, Some("photo.png".to_string()));
    assert_eq!(p2.first_image_url, None);

    let (posts, tag_set, failures) = merge_parse_results(vec![Ok(p1), Ok(p2)]);
    assert_eq!(posts.len(), 2);
    assert!(failures.is_empty());
    assert_eq!(tag_set.len(), 2);

    let mut result = BuildResult::new();
    result.record_success();
    result.record_success();
    for w in w2 {
        result.record_failure(w);
    }
    let summary = result.finalize().expect("two posts built");
    assert_eq!(summary.posts_built, 2);
    assert_eq!(summary.warnings.len(), 1);

    let items: Vec<_> = posts.iter().map(to_post_list_item).collect();
    let sorted = sort_posts_desc(items);
    let config = Config::new();
    let pages = build_listing_pages(&sorted, &tag_set, &config, None);
    // The index plus exactly two tag pages, in sorted tag order.
    assert_eq!(pages.len(), 3);
    assert_eq!(pages[0].rel_path, "index.html");
    assert_eq!(pages[1].rel_path, "tags/tag_a.html");
    assert_eq!(pages[2].rel_path, "tags/tag_b.html");
    assert!(pages[0].html.contains("Hello"));
    assert!(pages[0].html.contains("0002-second"));
    // Both tag pages list only the tagged post.
    assert!(pages[1].html.contains("posts/0001-hello.html"));
    assert!(!pages[1].html.contains("posts/0002-second.html"));
}

#[test]
fn tag_set_deduplicates_across_posts() {
    let (p1, _) = parse_post("a", "Tags: rust, web\n", 0, 0);
    let (p2, _) = parse_post("b", "Tags: web, rust\n", 0, 0);
    let (_, tag_set, _) = merge_parse_results(vec![Ok(p1), Ok(p2)]);
    assert_eq!(tag_set.len(), 2);
}

#[test]
fn template_shell_and_nav() {
    let config = Config::new().brand_name("My & Site");
    let (p, _) = parse_post("x", "# X\nTags: zeta, alpha\n", 0, 0);
    let (_, tag_set, _) = merge_parse_results(vec![Ok(p)]);
    let ctx = RenderContext::new(&config).with_css("body{}").with_lcp_image("../images/x.webp");
    let title = bloggen::html_safe::HtmlSafe::escape("Post");
    let html = template(&title, "<p>hi</p>", &tag_set, "../", &ctx);
    assert!(html.contains("<title>My &amp; Site | Post</title>"));
    assert!(html.contains("<style>body{}</style>"));
    assert!(html.contains("rel=\"preload\" as=\"image\" href=\"../images/x.webp\""));
    assert!(html.contains("<a href=\"../index.html\" class=\"nav-link main-link\">Index</a>"));
    // Tag links sorted lexicographically and case-folded in the URL.
    let alpha = html.find("tags/tag_alpha.html").unwrap();
    let zeta = html.find("tags/tag_zeta.html").unwrap();
    assert!(alpha < zeta);
    assert!(html.contains("<p>hi</p>"));
}

#[test]
fn external_css_link_when_not_inlined() {
    let config = Config::new();
    let (p, _) = parse_post("x", "# X\n", 0, 0);
    let (_, tag_set, _) = merge_parse_results(vec![Ok(p)]);
    let title = bloggen::html_safe::HtmlSafe::escape("T");
    let html = bloggen::template::template_simple(&title, "c", &tag_set, "", &config);
    assert!(html.contains("<link rel=\"stylesheet\" href=\"style.css\">"));
    assert!(!html.contains("<style>"));
}

#[test]
fn post_list_renders_entries() {
    let (p, _) = parse_post("0001-a", "# First\nTags: t\n", 1700000000, 8);
    let item = to_post_list_item(&p);
    let html = render_post_list(&vec![item], "../");
    assert!(html.contains("<div class=\"post-list\">"));
    assert!(html.contains("href=\"../posts/0001-a.html\""));
    assert!(html.contains("First"));
    assert!(html.contains("<span class=\"tag\">#t</span>"));
    assert!(html.contains("2023.11.15 06:13"));
}
