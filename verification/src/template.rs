//! HTML page templating.
//!
//! Every generated page shares one shell: brand header, navigation with an
//! Index link and one link per known tag in sorted order, CSS either
//! inlined or linked, and an optional preload hint for the first image.
//! Only `HtmlSafe` values and validated tags are interpolated; raw user
//! text never reaches a template.

use vstd::prelude::*;
use vstd::string::StringExecFns;
use crate::config::Config;
use crate::html_safe::{escape_seq, HtmlSafe};
use crate::tag::{lower_of, Tag};
use crate::tag_set::TagSet;
use crate::text::str_to_string;

verus! {

/// Render context with optional CSS content and LCP preload.
pub struct RenderContext {
    pub config: Config,
    pub inline_css: Option<String>,
    pub lcp_image_url: Option<String>,
}

/// Copy a configuration value field by field.
fn duplicate_config(config: &Config) -> (r: Config)
    ensures
        r == *config,
{
    Config {
        content_dir: config.content_dir.clone(),
        public_dir: config.public_dir.clone(),
        max_image_width: config.max_image_width,
        timezone_offset_hours: config.timezone_offset_hours,
        brand_name: config.brand_name.clone(),
        inline_css: config.inline_css,
    }
}

impl RenderContext {
    pub fn new(config: &Config) -> (r: Self)
        ensures
            r.config == *config,
            r.inline_css is None,
            r.lcp_image_url is None,
    {
        Self { config: duplicate_config(config), inline_css: None, lcp_image_url: None }
    }

    pub fn with_css(self, css: &str) -> (r: Self)
        ensures
            r.config == self.config,
            r.inline_css matches Some(c) && c@ == css@,
            r.lcp_image_url == self.lcp_image_url,
    {
        Self { inline_css: Some(str_to_string(css)), ..self }
    }

    pub fn with_lcp_image(self, url: &str) -> (r: Self)
        ensures
            r.config == self.config,
            r.inline_css == self.inline_css,
            r.lcp_image_url matches Some(u) && u@ == url@,
    {
        Self { lcp_image_url: Some(str_to_string(url)), ..self }
    }
}

/// The view of an optional owned string.
pub open spec fn opt_view(o: Option<String>) -> Option<Seq<char>> {
    match o {
        Some(s) => Some(s@),
        None => None,
    }
}

/// One navigation link for a tag: its target uses the case-folded name,
/// its text the tag as validated.
pub open spec fn nav_link(tag: Seq<char>, rel: Seq<char>) -> Seq<char> {
    "<a href=\""@ + rel + "tags/tag_"@ + lower_of(tag) + ".html\" class=\"nav-link tag-link\">"@
        + tag + "</a>"@
}

/// The tag links, in the set's (sorted) order.
pub open spec fn nav_links(tags: Seq<Seq<char>>, rel: Seq<char>) -> Seq<char>
    decreases tags.len(),
{
    if tags.len() == 0 {
        Seq::empty()
    } else {
        nav_links(tags.drop_last(), rel) + nav_link(tags.last(), rel)
    }
}

/// The navigation block: the Index link, then one link per known tag when
/// there are any.
pub open spec fn nav_html(tags: Seq<Seq<char>>, rel: Seq<char>) -> Seq<char> {
    let head = "<div class=\"nav-section\"><a href=\""@ + rel
        + "index.html\" class=\"nav-link main-link\">Index</a></div>"@;
    if tags.len() == 0 {
        head
    } else {
        head + "<div class=\"nav-section\"><span class=\"nav-header\">Filter</span>"@ + nav_links(
            tags,
            rel,
        ) + "</div>"@
    }
}

/// The CSS block: inline when the stylesheet is provided, an external link
/// otherwise.
pub open spec fn css_block(css: Option<Seq<char>>, rel: Seq<char>) -> Seq<char> {
    match css {
        Some(c) => "<style>"@ + c + "</style>"@,
        None => "<link rel=\"stylesheet\" href=\""@ + rel + "style.css\">"@,
    }
}

/// The LCP preload hint for the first image, when there is one.
pub open spec fn preload_block(lcp: Option<Seq<char>>) -> Seq<char> {
    match lcp {
        Some(u) => "<link rel=\"preload\" as=\"image\" href=\""@ + u + "\" fetchpriority=\"high\">"@,
        None => Seq::empty(),
    }
}

/// The whole page shell around a content fragment.
pub open spec fn template_spec(
    title: Seq<char>,
    content: Seq<char>,
    tags: Seq<Seq<char>>,
    rel: Seq<char>,
    brand: Seq<char>,
    css: Option<Seq<char>>,
    lcp: Option<Seq<char>>,
) -> Seq<char> {
    let brand_esc = escape_seq(brand);
    "<!DOCTYPE html>\n<html lang=\"en\">\n<head>\n    <meta charset=\"UTF-8\">\n    <meta name=\"viewport\" content=\"width=device-width, initial-scale=1.0\">\n    <title>"@
        + brand_esc + " | "@ + title + "</title>\n    <link rel=\"icon\" href=\""@ + rel
        + "favicon.ico\" type=\"image/x-icon\">\n    "@ + css_block(css, rel) + "\n    "@
        + preload_block(lcp) + "\n</head>\n<body>\n    <header>\n        <span class=\"brand\">[ "@
        + brand_esc + " ]</span>\n        <nav>\n            "@ + nav_html(tags, rel)
        + "\n        </nav>\n    </header>\n    <article>\n        "@ + content
        + "\n    </article>\n</body>\n</html>"@
}

/// Render the HTML page template.
pub fn template(
    title: &HtmlSafe,
    content: &str,
    all_tags: &TagSet,
    relative_root: &str,
    ctx: &RenderContext,
) -> (r: String)
    ensures
        r@ == template_spec(
            title@,
            content@,
            all_tags@,
            relative_root@,
            ctx.config.brand_name@,
            opt_view(ctx.inline_css),
            opt_view(ctx.lcp_image_url),
        ),
{
    let brand = HtmlSafe::escape(ctx.config.brand_name.as_str());
    let nav = build_nav(all_tags, relative_root);
    let mut s = str_to_string(
        "<!DOCTYPE html>\n<html lang=\"en\">\n<head>\n    <meta charset=\"UTF-8\">\n    <meta name=\"viewport\" content=\"width=device-width, initial-scale=1.0\">\n    <title>",
    );
    s.append(brand.as_str());
    s.append(" | ");
    s.append(title.as_str());
    s.append("</title>\n    <link rel=\"icon\" href=\"");
    s.append(relative_root);
    s.append("favicon.ico\" type=\"image/x-icon\">\n    ");
    match &ctx.inline_css {
        Some(css) => {
            s.append("<style>");
            s.append(css.as_str());
            s.append("</style>");
        },
        None => {
            s.append("<link rel=\"stylesheet\" href=\"");
            s.append(relative_root);
            s.append("style.css\">");
        },
    }
    s.append("\n    ");
    match &ctx.lcp_image_url {
        Some(url) => {
            s.append("<link rel=\"preload\" as=\"image\" href=\"");
            s.append(url.as_str());
            s.append("\" fetchpriority=\"high\">");
        },
        None => {},
    }
    s.append("\n</head>\n<body>\n    <header>\n        <span class=\"brand\">[ ");
    s.append(brand.as_str());
    s.append(" ]</span>\n        <nav>\n            ");
    s.append(nav.as_str());
    s.append("\n        </nav>\n    </header>\n    <article>\n        ");
    s.append(content);
    s.append("\n    </article>\n</body>\n</html>");
    s
}

/// Build the navigation block for a page.
fn build_nav(all_tags: &TagSet, relative_root: &str) -> (r: String)
    ensures
        r@ == nav_html(all_tags@, relative_root@),
{
    let mut s = str_to_string("<div class=\"nav-section\"><a href=\"");
    s.append(relative_root);
    s.append("index.html\" class=\"nav-link main-link\">Index</a></div>");
    let tags = all_tags.as_vec();
    let n = tags.len();
    if n == 0 {
        return s;
    }
    s.append("<div class=\"nav-section\"><span class=\"nav-header\">Filter</span>");
    let ghost head = s@;
    let mut i: usize = 0;
    proof {
        assert(all_tags@.subrange(0, 0) =~= Seq::<Seq<char>>::empty());
    }
    while i < n
        invariant
            i <= n,
            n == all_tags@.len(),
            tags@.map_values(|t: Tag| t@) == all_tags@,
            s@ == head + nav_links(all_tags@.subrange(0, i as int), relative_root@),
        decreases n - i,
    {
        proof {
            assert(all_tags@.subrange(0, i + 1).drop_last() =~= all_tags@.subrange(0, i as int));
            assert(all_tags@.subrange(0, i + 1).last() == all_tags@[i as int]);
            assert(all_tags@[i as int] == tags@[i as int]@);
        }
        let tag = &tags[i];
        let tag_lower = tag.to_lowercase();
        s.append("<a href=\"");
        s.append(relative_root);
        s.append("tags/tag_");
        s.append(tag_lower.as_str());
        s.append(".html\" class=\"nav-link tag-link\">");
        s.append(tag.as_str());
        s.append("</a>");
        i += 1;
    }
    proof {
        assert(all_tags@.subrange(0, n as int) =~= all_tags@);
    }
    s.append("</div>");
    s
}

/// Legacy template entry without context options.
pub fn template_simple(
    title: &HtmlSafe,
    content: &str,
    all_tags: &TagSet,
    relative_root: &str,
    config: &Config,
) -> (r: String)
    ensures
        r@ == template_spec(
            title@,
            content@,
            all_tags@,
            relative_root@,
            config.brand_name@,
            None,
            None,
        ),
{
    let ctx = RenderContext::new(config);
    template(title, content, all_tags, relative_root, &ctx)
}

/// The `#tag` spans of a post's tag list.
pub open spec fn tags_spans(tags: Seq<Seq<char>>) -> Seq<char>
    decreases tags.len(),
{
    if tags.len() == 0 {
        Seq::empty()
    } else {
        tags_spans(tags.drop_last()) + "<span class=\"tag\">#"@ + tags.last() + "</span>"@
    }
}

fn build_tags_spans(tags: &Vec<Tag>) -> (r: String)
    ensures
        r@ == tags_spans(tags@.map_values(|t: Tag| t@)),
{
    let ghost tvs = tags@.map_values(|t: Tag| t@);
    let mut s = String::new();
    let n = tags.len();
    let mut i: usize = 0;
    proof {
        assert(tvs.subrange(0, 0) =~= Seq::<Seq<char>>::empty());
    }
    while i < n
        invariant
            i <= n,
            n == tvs.len(),
            tvs == tags@.map_values(|t: Tag| t@),
            s@ == tags_spans(tvs.subrange(0, i as int)),
        decreases n - i,
    {
        proof {
            assert(tvs.subrange(0, i + 1).drop_last() =~= tvs.subrange(0, i as int));
            assert(tvs.subrange(0, i + 1).last() == tvs[i as int]);
            assert(tvs[i as int] == tags@[i as int]@);
        }
        s.append("<span class=\"tag\">#");
        s.append(tags[i].as_str());
        s.append("</span>");
        i += 1;
    }
    proof {
        assert(tvs.subrange(0, n as int) =~= tvs);
    }
    s
}

/// The metadata header of a post: upload date and tag spans. The date is
/// escaped; the tags were validated at construction.
pub open spec fn meta_html(date: Seq<char>, tags: Seq<Seq<char>>) -> Seq<char> {
    "<div class=\"meta\"><span class=\"meta-item\">UPLOAD: "@ + escape_seq(date)
        + "</span> <span class=\"meta-item\">"@ + tags_spans(tags) + "</span></div>"@
}

/// Generate the metadata header for a post.
pub fn render_post_meta(date: &str, tags: &Vec<Tag>) -> (r: String)
    ensures
        r@ == meta_html(date@, tags@.map_values(|t: Tag| t@)),
{
    let safe_date = HtmlSafe::escape(date);
    let spans = build_tags_spans(tags);
    let mut s = str_to_string("<div class=\"meta\"><span class=\"meta-item\">UPLOAD: ");
    s.append(safe_date.as_str());
    s.append("</span> <span class=\"meta-item\">");
    s.append(spans.as_str());
    s.append("</span></div>");
    s
}

/// Item in the post list (for index/tag pages).
#[derive(Debug)]
pub struct PostListItem {
    pub title: HtmlSafe,
    pub filename: String,
    pub date: String,
    pub tags: Vec<Tag>,
}

/// The mathematical content of a post list item.
pub struct PostListModel {
    pub title: Seq<char>,
    pub filename: Seq<char>,
    pub date: Seq<char>,
    pub tags: Seq<Seq<char>>,
}

impl View for PostListItem {
    type V = PostListModel;

    open spec fn view(&self) -> PostListModel {
        PostListModel {
            title: self.title@,
            filename: self.filename@,
            date: self.date@,
            tags: self.tags@.map_values(|t: Tag| t@),
        }
    }
}

impl PostListItem {
    /// A copy with the same content.
    pub fn duplicate(&self) -> (r: PostListItem)
        ensures
            r@ == self@,
    {
        let mut tags: Vec<Tag> = Vec::new();
        let n = self.tags.len();
        let mut i: usize = 0;
        while i < n
            invariant
                i <= n,
                n == self.tags@.len(),
                tags@.len() == i,
                forall|j: int| 0 <= j < i ==> (#[trigger] tags@[j])@ == self.tags@[j]@,
            decreases n - i,
        {
            tags.push(self.tags[i].duplicate());
            i += 1;
        }
        let r = PostListItem {
            title: HtmlSafe::from_trusted(self.title.as_str()),
            filename: self.filename.clone(),
            date: self.date.clone(),
            tags,
        };
        proof {
            assert(r@.tags =~= self@.tags);
        }
        r
    }
}

/// One entry of a post list.
pub open spec fn post_entry(p: PostListModel, rel: Seq<char>) -> Seq<char> {
    "<div class=\"post-entry\"><a href=\""@ + rel + p.filename
        + "\"><span class=\"entry-title\">"@ + p.title + " "@ + tags_spans(p.tags)
        + "</span><span class=\"entry-date\">"@ + escape_seq(p.date) + "</span></a></div>"@
}

/// The entries of a post list, in order.
pub open spec fn post_entries(posts: Seq<PostListModel>, rel: Seq<char>) -> Seq<char>
    decreases posts.len(),
{
    if posts.len() == 0 {
        Seq::empty()
    } else {
        post_entries(posts.drop_last(), rel) + post_entry(posts.last(), rel)
    }
}

/// The post list of an index or tag page.
pub open spec fn post_list_html(posts: Seq<PostListModel>, rel: Seq<char>) -> Seq<char> {
    "<div class=\"post-list\">"@ + post_entries(posts, rel) + "</div>"@
}

/// Generate the post list HTML for index/tag pages.
pub fn render_post_list(posts: &Vec<PostListItem>, relative_root: &str) -> (r: String)
    ensures
        r@ == post_list_html(posts@.map_values(|p: PostListItem| p@), relative_root@),
{
    let ghost models = posts@.map_values(|p: PostListItem| p@);
    let mut s = str_to_string("<div class=\"post-list\">");
    let ghost head = s@;
    let n = posts.len();
    let mut i: usize = 0;
    proof {
        assert(models.subrange(0, 0) =~= Seq::<PostListModel>::empty());
    }
    while i < n
        invariant
            i <= n,
            n == models.len(),
            models == posts@.map_values(|p: PostListItem| p@),
            s@ == head + post_entries(models.subrange(0, i as int), relative_root@),
        decreases n - i,
    {
        proof {
            assert(models.subrange(0, i + 1).drop_last() =~= models.subrange(0, i as int));
            assert(models.subrange(0, i + 1).last() == models[i as int]);
            assert(models[i as int] == posts@[i as int]@);
        }
        let p = &posts[i];
        let spans = build_tags_spans(&p.tags);
        let safe_date = HtmlSafe::escape(p.date.as_str());
        s.append("<div class=\"post-entry\"><a href=\"");
        s.append(relative_root);
        s.append(p.filename.as_str());
        s.append("\"><span class=\"entry-title\">");
        s.append(p.title.as_str());
        s.append(" ");
        s.append(spans.as_str());
        s.append("</span><span class=\"entry-date\">");
        s.append(safe_date.as_str());
        s.append("</span></a></div>");
        i += 1;
    }
    proof {
        assert(models.subrange(0, n as int) =~= models);
    }
    s.append("</div>");
    s
}

} // verus!
