use bloggen::html_safe::{EscapeHtml, HtmlSafe};

#[test]
fn escapes_ampersand() {
    let safe = HtmlSafe::escape("Tom & Jerry");
    assert_eq!(safe.as_str(), "Tom &amp; Jerry");
}

#[test]
fn escapes_angle_brackets() {
    let safe = HtmlSafe::escape("<script>alert('xss')</script>");
    assert_eq!(safe.as_str(), "&lt;script&gt;alert(&#x27;xss&#x27;)&lt;/script&gt;");
}

#[test]
fn escapes_quotes() {
    let safe = HtmlSafe::escape(r#"He said "hello""#);
    assert_eq!(safe.as_str(), "He said &quot;hello&quot;");
}

#[test]
fn preserves_safe_content() {
    let safe = HtmlSafe::escape("Hello World 123");
    assert_eq!(safe.as_str(), "Hello World 123");
}

#[test]
fn extension_trait_works() {
    let safe = "test<>".escape_html();
    assert_eq!(safe.as_str(), "test&lt;&gt;");
}

#[test]
fn trusted_bypasses_escape() {
    let safe = HtmlSafe::from_trusted("<b>trusted</b>");
    assert_eq!(safe.as_str(), "<b>trusted</b>");
}

#[test]
fn preserves_non_ascii() {
    let safe = HtmlSafe::escape("héllo wörld ✓");
    assert_eq!(safe.as_str(), "héllo wörld ✓");
}

#[test]
fn escaped_output_has_no_raw_specials() {
    let safe = HtmlSafe::escape("a<b>c\"d'e&f");
    for c in safe.as_str().chars() {
        assert!(c != '<' && c != '>' && c != '"' && c != '\'');
    }
    assert_eq!(safe.as_str(), "a&lt;b&gt;c&quot;d&#x27;e&amp;f");
}

#[test]
fn double_escaping_is_not_identity() {
    let once = HtmlSafe::escape("&");
    let twice = HtmlSafe::escape(once.as_str());
    assert_eq!(once.as_str(), "&amp;");
    assert_eq!(twice.as_str(), "&amp;amp;");
}

#[test]
fn is_empty_reports_content() {
    assert!(HtmlSafe::escape("").is_empty());
    assert!(!HtmlSafe::escape("x").is_empty());
}
