use bloggen::image::OptimizedImage;
use bloggen::render::{
    collect_image_urls, is_dimension_spec, parse_dimensions_or_image, parse_markdown,
    render_markdown,
};

#[test]
fn dimension_pair_parses() {
    let (w, h) = parse_dimensions_or_image("800x600", 0, 0);
    assert_eq!(w, "width=\"800\"");
    assert_eq!(h, "height=\"600\"");
}

#[test]
fn dimension_single_parses() {
    let (w, h) = parse_dimensions_or_image("800", 0, 0);
    assert_eq!(w, "width=\"800\"");
    assert_eq!(h, "");
}

#[test]
fn empty_title_falls_back_to_measured() {
    let (w, h) = parse_dimensions_or_image("", 640, 480);
    assert_eq!(w, "width=\"640\"");
    assert_eq!(h, "height=\"480\"");
}

#[test]
fn non_numeric_title_falls_back_to_measured() {
    let (w, h) = parse_dimensions_or_image("a tooltip", 640, 480);
    assert_eq!(w, "width=\"640\"");
    assert_eq!(h, "height=\"480\"");
}

#[test]
fn malformed_pair_falls_through_not_partial() {
    // "800x" must not yield a partial parse of 800.
    let (w, h) = parse_dimensions_or_image("800x", 640, 480);
    assert_eq!(w, "width=\"640\"");
    assert_eq!(h, "height=\"480\"");
}

#[test]
fn unknown_dimensions_yield_no_attributes() {
    let (w, h) = parse_dimensions_or_image("not a number", 0, 0);
    assert_eq!(w, "");
    assert_eq!(h, "");
}

#[test]
fn dimension_spec_detection() {
    assert!(is_dimension_spec("800x600"));
    assert!(is_dimension_spec("800"));
    assert!(is_dimension_spec(" 120x240 "));
    assert!(!is_dimension_spec(""));
    assert!(!is_dimension_spec("800x"));
    assert!(!is_dimension_spec("x600"));
    assert!(!is_dimension_spec("banana"));
}

#[test]
fn dimension_bounds() {
    // The largest width that fits still parses; one past it falls through
    // to the measured dimensions, not to a partial parse.
    let (w, h) = parse_dimensions_or_image("4294967295", 0, 0);
    assert_eq!(w, "width=\"4294967295\"");
    assert_eq!(h, "");
    let (w, h) = parse_dimensions_or_image("4294967296", 7, 8);
    assert_eq!(w, "width=\"7\"");
    assert_eq!(h, "height=\"8\"");
    // Only plain digit strings are dimension specs.
    assert!(!is_dimension_spec("+800"));
    assert!(!is_dimension_spec("-800"));
}

#[test]
fn collects_image_urls_in_order() {
    let md = "![one](a.png)\n\ntext\n\n![two](b.jpg \"t\")\n";
    let events = parse_markdown(md);
    let urls = collect_image_urls(&events);
    assert_eq!(urls, vec!["a.png".to_string(), "b.jpg".to_string()]);
}

#[test]
fn renders_figure_with_measured_dimensions() {
    let md = "# Title\n\n![alt text](photo.png)\n";
    let events = parse_markdown(md);
    let urls = collect_image_urls(&events);
    assert_eq!(urls.len(), 1);
    let images = vec![OptimizedImage {
        rel_path: "images/photo.webp".to_string(),
        width: 640,
        height: 480,
    }];
    let html = render_markdown(events, &images, "../");
    assert!(html.contains("<h1>Title</h1>"));
    assert!(html.contains("src=\"../images/photo.webp\""));
    assert!(html.contains("alt=\"alt text\""));
    assert!(html.contains("width=\"640\""));
    assert!(html.contains("height=\"480\""));
    assert!(html.contains("loading=\"eager\""));
    assert!(html.contains("[ Download Full Size ]"));
}

#[test]
fn title_dimension_override_wins_and_is_consumed() {
    let md = "![pic](photo.png \"800x600\")\n";
    let events = parse_markdown(md);
    let images = vec![OptimizedImage {
        rel_path: "images/photo.webp".to_string(),
        width: 100,
        height: 50,
    }];
    let html = render_markdown(events, &images, "../");
    assert!(html.contains("width=\"800\""));
    assert!(html.contains("height=\"600\""));
    assert!(!html.contains("width=\"100\""));
    assert!(!html.contains("title="));
}

#[test]
fn non_dimension_title_becomes_escaped_attribute() {
    let md = "![pic](photo.png \"my <title>\")\n";
    let events = parse_markdown(md);
    let images = vec![OptimizedImage {
        rel_path: "images/photo.webp".to_string(),
        width: 10,
        height: 10,
    }];
    let html = render_markdown(events, &images, "./");
    assert!(html.contains("title=\"my &lt;title&gt;\""));
}

#[test]
fn first_image_eager_rest_lazy() {
    let md = "![one](a.png)\n\npara\n\n![two](b.png)\n";
    let events = parse_markdown(md);
    let images = vec![
        OptimizedImage { rel_path: "images/a.webp".to_string(), width: 1, height: 1 },
        OptimizedImage { rel_path: "images/b.webp".to_string(), width: 2, height: 2 },
    ];
    let html = render_markdown(events, &images, "");
    let eager = html.find("loading=\"eager\"").expect("first image must be eager");
    let lazy = html.find("loading=\"lazy\"").expect("second image must be lazy");
    assert!(eager < lazy);
}

#[test]
fn external_url_passes_through_unprefixed() {
    let md = "![ext](https://example.com/pic.png)\n";
    let events = parse_markdown(md);
    let images = vec![OptimizedImage::external("https://example.com/pic.png")];
    let html = render_markdown(events, &images, "../");
    assert!(html.contains("src=\"https://example.com/pic.png\""));
    assert!(!html.contains("src=\"../https"));
    // Unknown dimensions: no dimension attributes at all.
    assert!(!html.contains("width="));
}

#[test]
fn alt_text_flattens_inline_code() {
    let md = "![`co` de](x.png)\n";
    let events = parse_markdown(md);
    let images = vec![OptimizedImage::missing("x.png")];
    let html = render_markdown(events, &images, "");
    assert!(html.contains("alt=\"co de\""));
}

#[test]
fn text_inside_image_is_not_body_content() {
    let md = "before\n\n![hidden alt](x.png)\n\nafter\n";
    let events = parse_markdown(md);
    let images = vec![OptimizedImage::missing("x.png")];
    let html = render_markdown(events, &images, "");
    assert!(html.contains("before"));
    assert!(html.contains("after"));
    // The alt text appears only inside the alt attribute, never as body text.
    assert!(!html.replace("alt=\"hidden alt\"", "").contains("hidden alt"));
}

#[test]
fn escapes_alt_text() {
    let md = "![say \"hi\" & 'bye'](x.png)\n";
    let events = parse_markdown(md);
    let images = vec![OptimizedImage::missing("x.png")];
    let html = render_markdown(events, &images, "");
    assert!(html.contains("alt=\"say &quot;hi&quot; &amp; &#x27;bye&#x27;\""));
}
