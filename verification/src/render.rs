//! Markdown-to-HTML rewriting with image interception.
//!
//! The markdown parser produces a stream of events; this module runs the
//! stream through a small state machine that captures each image node (its
//! destination URL, title text, and flattened alt text), asks the image
//! optimizer for the final asset, and replaces the node with structured
//! `<figure>` markup. Everything the machine emits is specified exactly;
//! only the event parser and the final HTML serializer are outside
//! collaborators.

use vstd::prelude::*;
use vstd::string::StringExecFns;
use crate::html_safe::escape_seq;
use crate::html_safe::HtmlSafe;
use crate::image::{is_external_url, OptimizedImage};
use crate::text::{
    chars_of, dec_str, find_char, find_char_at, parse_u32_chars, parse_u32_spec, str_to_string,
    subrange_chars, trim_chars, trim_spec, u32_to_dec,
};

verus! {

/// The explicit `WxH` override parsed from an image title, if any.
pub open spec fn dim_pair(title: Seq<char>) -> Option<(u32, u32)> {
    let clean = trim_spec(title);
    let x = find_char(clean, 'x');
    if x < clean.len() {
        let w = parse_u32_spec(clean.subrange(0, x));
        let h = parse_u32_spec(clean.subrange(x + 1, clean.len() as int));
        if w is Some && h is Some {
            Some((w->0, h->0))
        } else {
            None
        }
    } else {
        None
    }
}

/// The explicit width-only override parsed from an image title, if any.
pub open spec fn dim_single(title: Seq<char>) -> Option<u32> {
    parse_u32_spec(trim_spec(title))
}

/// Whether the title is a dimension specification (and is therefore
/// consumed, not rendered as a `title` attribute).
pub open spec fn spec_is_dimension(title: Seq<char>) -> bool {
    let clean = trim_spec(title);
    clean.len() > 0 && (if find_char(clean, 'x') < clean.len() {
        dim_pair(title) is Some
    } else {
        dim_single(title) is Some
    })
}

/// A `width="..."` attribute.
pub open spec fn width_attr(w: nat) -> Seq<char> {
    "width=\""@ + dec_str(w) + "\""@
}

/// A `height="..."` attribute.
pub open spec fn height_attr(h: nat) -> Seq<char> {
    "height=\""@ + dec_str(h) + "\""@
}

/// The dimension attributes of an image: an explicit `WxH` title override
/// first, then a width-only override, then the measured dimensions (when
/// known), otherwise no attributes. A malformed spec such as `800x` falls
/// through to the measured dimensions, never to a partial parse.
pub open spec fn dim_attrs(title: Seq<char>, img_w: u32, img_h: u32) -> (Seq<char>, Seq<char>) {
    if dim_pair(title) is Some {
        let p = dim_pair(title)->0;
        (width_attr(p.0 as nat), height_attr(p.1 as nat))
    } else if dim_single(title) is Some {
        (width_attr(dim_single(title)->0 as nat), Seq::empty())
    } else if img_w > 0 && img_h > 0 {
        (width_attr(img_w as nat), height_attr(img_h as nat))
    } else {
        (Seq::empty(), Seq::empty())
    }
}

fn build_width_attr(w: u32) -> (r: String)
    ensures
        r@ == width_attr(w as nat),
{
    let mut s = str_to_string("width=\"");
    s.append(u32_to_dec(w).as_str());
    s.append("\"");
    s
}

fn build_height_attr(h: u32) -> (r: String)
    ensures
        r@ == height_attr(h as nat),
{
    let mut s = str_to_string("height=\"");
    s.append(u32_to_dec(h).as_str());
    s.append("\"");
    s
}

/// Check if a title is a dimension specification.
pub fn is_dimension_spec(title: &str) -> (r: bool)
    ensures
        r == spec_is_dimension(title@),
{
    let cs = chars_of(title);
    let clean = trim_chars(&cs);
    if clean.len() == 0 {
        return false;
    }
    let x = find_char_at(&clean, 'x');
    if x < clean.len() {
        proof {
            crate::text::lemma_find_char(clean@, 'x');
        }
        let w = parse_u32_chars(&subrange_chars(&clean, 0, x));
        let h = parse_u32_chars(&subrange_chars(&clean, x + 1, clean.len()));
        w.is_some() && h.is_some()
    } else {
        parse_u32_chars(&clean).is_some()
    }
}

/// Parse the dimension attributes from a title, or fall back to the
/// measured image dimensions.
pub fn parse_dimensions_or_image(title: &str, img_w: u32, img_h: u32) -> (r: (String, String))
    ensures
        r.0@ == dim_attrs(title@, img_w, img_h).0,
        r.1@ == dim_attrs(title@, img_w, img_h).1,
{
    let cs = chars_of(title);
    let clean = trim_chars(&cs);
    let x = find_char_at(&clean, 'x');
    if x < clean.len() {
        proof {
            crate::text::lemma_find_char(clean@, 'x');
        }
        let w = parse_u32_chars(&subrange_chars(&clean, 0, x));
        let h = parse_u32_chars(&subrange_chars(&clean, x + 1, clean.len()));
        if let (Some(w), Some(h)) = (w, h) {
            return (build_width_attr(w), build_height_attr(h));
        }
    }
    if let Some(w) = parse_u32_chars(&clean) {
        return (build_width_attr(w), String::new());
    }
    if img_w > 0 && img_h > 0 {
        return (build_width_attr(img_w), build_height_attr(img_h));
    }
    (String::new(), String::new())
}

/// The final `src` of an optimized image: external URLs pass through, local
/// paths are prefixed with the page's relative root.
pub open spec fn final_src(rel_path: Seq<char>, relative_root: Seq<char>) -> Seq<char> {
    if is_external_url(rel_path) {
        rel_path
    } else {
        relative_root + rel_path
    }
}

/// Resolve the final `src` of an optimized image for a page.
pub fn resolve_image_src(opt: &OptimizedImage, relative_root: &str) -> (r: String)
    ensures
        r@ == final_src(opt.rel_path@, relative_root@),
{
    if opt.is_external() {
        str_to_string(opt.rel_path.as_str())
    } else {
        let mut s = str_to_string(relative_root);
        s.append(opt.rel_path.as_str());
        s
    }
}

/// Attributes marking the first image of a post for eager loading.
pub open spec fn eager_attrs() -> Seq<char> {
    "loading=\"eager\" fetchpriority=\"high\" decoding=\"sync\""@
}

/// Attributes marking every later image for lazy loading.
pub open spec fn lazy_attrs() -> Seq<char> {
    "loading=\"lazy\" decoding=\"async\""@
}

/// The `title` attribute of a figure: emitted only when the title is
/// non-empty and is not a dimension specification; always escaped.
pub open spec fn title_attr(title: Seq<char>) -> Seq<char> {
    if !spec_is_dimension(title) && title.len() > 0 {
        "title=\""@ + escape_seq(title) + "\""@
    } else {
        Seq::empty()
    }
}

/// The `<figure>` markup for one intercepted image. Alt text and the
/// resolved source are always escaped; `eager` marks the first image of
/// the document.
pub open spec fn figure_html(
    alt: Seq<char>,
    title: Seq<char>,
    rel_path: Seq<char>,
    img_w: u32,
    img_h: u32,
    relative_root: Seq<char>,
    eager: bool,
) -> Seq<char> {
    let src_esc = escape_seq(final_src(rel_path, relative_root));
    let alt_esc = escape_seq(alt);
    let loading = if eager {
        eager_attrs()
    } else {
        lazy_attrs()
    };
    "<figure class=\"image-container\">\n                        <img src=\""@ + src_esc
        + "\" alt=\""@ + alt_esc + "\" "@ + dim_attrs(title, img_w, img_h).0 + " "@ + dim_attrs(
        title,
        img_w,
        img_h,
    ).1 + " "@ + title_attr(title) + " "@ + loading
        + " />\n                        <figcaption>\n                            <a href=\""@
        + src_esc
        + "\" target=\"_blank\" class=\"download-link\">[ Download Full Size ]</a>\n                        </figcaption>\n                    </figure>"@
}

/// Build the `<figure>` markup for one intercepted image.
pub fn build_figure_html(
    alt: &str,
    title: &str,
    opt: &OptimizedImage,
    relative_root: &str,
    eager: bool,
) -> (r: String)
    ensures
        r@ == figure_html(
            alt@,
            title@,
            opt.rel_path@,
            opt.width,
            opt.height,
            relative_root@,
            eager,
        ),
{
    let src = resolve_image_src(opt, relative_root);
    let src_esc = HtmlSafe::escape(src.as_str());
    let alt_esc = HtmlSafe::escape(alt);
    let (wa, ha) = parse_dimensions_or_image(title, opt.width, opt.height);
    let mut s = str_to_string(
        "<figure class=\"image-container\">\n                        <img src=\"",
    );
    s.append(src_esc.as_str());
    s.append("\" alt=\"");
    s.append(alt_esc.as_str());
    s.append("\" ");
    s.append(wa.as_str());
    s.append(" ");
    s.append(ha.as_str());
    s.append(" ");
    if !is_dimension_spec(title) && chars_of(title).len() > 0 {
        let title_esc = HtmlSafe::escape(title);
        let mut t = str_to_string("title=\"");
        t.append(title_esc.as_str());
        t.append("\"");
        s.append(t.as_str());
    }
    s.append(" ");
    if eager {
        s.append("loading=\"eager\" fetchpriority=\"high\" decoding=\"sync\"");
    } else {
        s.append("loading=\"lazy\" decoding=\"async\"");
    }
    s.append(" />\n                        <figcaption>\n                            <a href=\"");
    s.append(src_esc.as_str());
    s.append(
        "\" target=\"_blank\" class=\"download-link\">[ Download Full Size ]</a>\n                        </figcaption>\n                    </figure>",
    );
    s
}

#[verifier::external_type_specification]
#[verifier::external_body]
pub struct ExEvent<'a>(pulldown_cmark::Event<'a>);

/// The markdown event stream, as the rewriter sees it: image boundaries
/// and the text that may feed alt accumulation are modelled as plain
/// values; every other event is carried through opaquely.
pub enum MdEvent {
    /// An image node opens, with its destination URL and title text.
    ImageStart { url: String, title: String },
    /// An image node closes.
    ImageEnd,
    /// A text node.
    Text(String),
    /// An inline code node.
    Code(String),
    /// Any other event, passed through untouched while outside an image.
    Other(pulldown_cmark::Event<'static>),
}

/// What the rewriter emits for the serializer.
pub enum OutItem {
    /// An original event, passed through unchanged.
    Pass(pulldown_cmark::Event<'static>),
    /// A text node.
    Text(String),
    /// An inline code node.
    Code(String),
    /// A raw HTML fragment (the rewritten `<figure>` markup).
    Html(String),
}

/// The mathematical model of an emitted item.
pub enum OutModel {
    Pass(pulldown_cmark::Event<'static>),
    Text(Seq<char>),
    Code(Seq<char>),
    Html(Seq<char>),
}

impl View for OutItem {
    type V = OutModel;

    open spec fn view(&self) -> OutModel {
        match self {
            OutItem::Pass(e) => OutModel::Pass(*e),
            OutItem::Text(s) => OutModel::Text(s@),
            OutItem::Code(s) => OutModel::Code(s@),
            OutItem::Html(s) => OutModel::Html(s@),
        }
    }
}

/// Relies on pulldown_cmark's `Parser`: turns markdown source into its
/// event stream, image boundaries and text made plain, everything else
/// opaque. Nothing is assumed about the stream; the rewriting below is
/// verified for every possible one.
#[verifier::external_body]
pub fn parse_markdown(markdown: &str) -> (r: Vec<MdEvent>) {
    pulldown_cmark::Parser::new(markdown)
        .map(|ev| match ev {
            pulldown_cmark::Event::Start(pulldown_cmark::Tag::Image { dest_url, title, .. }) =>
                MdEvent::ImageStart { url: dest_url.to_string(), title: title.to_string() },
            pulldown_cmark::Event::End(pulldown_cmark::TagEnd::Image) => MdEvent::ImageEnd,
            pulldown_cmark::Event::Text(t) => MdEvent::Text(t.to_string()),
            pulldown_cmark::Event::Code(t) => MdEvent::Code(t.to_string()),
            other => MdEvent::Other(other.into_static()),
        })
        .collect()
}

/// The HTML serialization of a rewritten event stream, named: what the
/// markdown renderer prints is a function of the items alone.
pub uninterp spec fn html_of(items: Seq<OutModel>) -> Seq<char>;

/// Relies on pulldown_cmark's `html::push_html`: serializes the rewritten
/// event stream to HTML. The output depends on the items alone.
#[verifier::external_body]
pub fn events_to_html(items: Vec<OutItem>) -> (r: String)
    ensures
        r@ == html_of(items@.map_values(|o: OutItem| o@)),
{
    let mut out = String::new();
    pulldown_cmark::html::push_html(
        &mut out,
        items.into_iter().map(|it| match it {
            OutItem::Pass(e) => e,
            OutItem::Text(s) => pulldown_cmark::Event::Text(s.into()),
            OutItem::Code(s) => pulldown_cmark::Event::Code(s.into()),
            OutItem::Html(s) => pulldown_cmark::Event::Html(s.into()),
        }),
    );
    out
}

/// State of the URL collector: the URL of the image node being read, and
/// the URLs of all images completed so far, in document order.
pub struct UrlSt {
    pub cur: Seq<char>,
    pub urls: Seq<Seq<char>>,
}

pub open spec fn urls_step(st: UrlSt, e: MdEvent) -> UrlSt {
    match e {
        MdEvent::ImageStart { url, .. } => UrlSt { cur: url@, urls: st.urls },
        MdEvent::ImageEnd => UrlSt { cur: st.cur, urls: st.urls.push(st.cur) },
        _ => st,
    }
}

pub open spec fn urls_fold(events: Seq<MdEvent>) -> UrlSt
    decreases events.len(),
{
    if events.len() == 0 {
        UrlSt { cur: Seq::empty(), urls: Seq::empty() }
    } else {
        urls_step(urls_fold(events.drop_last()), events.last())
    }
}

/// The image URLs of a document, one per completed image node, in order.
pub open spec fn image_urls(events: Seq<MdEvent>) -> Seq<Seq<char>> {
    urls_fold(events).urls
}

/// Collect the image URLs of an event stream, in document order: one per
/// image node, to be handed to the image optimizer.
pub fn collect_image_urls(events: &Vec<MdEvent>) -> (r: Vec<String>)
    ensures
        r@.map_values(|s: String| s@) == image_urls(events@),
{
    let n = events.len();
    let mut cur = String::new();
    let mut urls: Vec<String> = Vec::new();
    let mut i: usize = 0;
    proof {
        assert(events@.subrange(0, 0) =~= Seq::<MdEvent>::empty());
        assert(urls@.map_values(|s: String| s@) =~= Seq::<Seq<char>>::empty());
    }
    while i < n
        invariant
            i <= n,
            n == events@.len(),
            cur@ == urls_fold(events@.subrange(0, i as int)).cur,
            urls@.map_values(|s: String| s@) == urls_fold(events@.subrange(0, i as int)).urls,
        decreases n - i,
    {
        proof {
            assert(events@.subrange(0, i + 1).drop_last() =~= events@.subrange(0, i as int));
            assert(events@.subrange(0, i + 1).last() == events@[i as int]);
        }
        let ghost old_urls = urls@.map_values(|s: String| s@);
        match &events[i] {
            MdEvent::ImageStart { url, .. } => {
                cur = url.clone();
            },
            MdEvent::ImageEnd => {
                urls.push(cur.clone());
                proof {
                    assert(urls@.map_values(|s: String| s@) =~= old_urls.push(cur@));
                }
            },
            _ => {},
        }
        i += 1;
    }
    proof {
        assert(events@.subrange(0, n as int) =~= events@);
    }
    urls
}

/// State of the rewriting machine: whether the head is inside an image
/// node (with the title seen and the alt text accumulated so far), whether
/// the first image was already emitted, how many images were completed,
/// and everything emitted so far.
pub struct RenderSt {
    pub in_image: bool,
    pub title: Seq<char>,
    pub alt: Seq<char>,
    pub first_done: bool,
    pub img_idx: int,
    pub out: Seq<OutModel>,
}

pub open spec fn render_init() -> RenderSt {
    RenderSt {
        in_image: false,
        title: Seq::empty(),
        alt: Seq::empty(),
        first_done: false,
        img_idx: 0,
        out: Seq::empty(),
    }
}

/// One transition of the rewriting machine. Inside an image node, text and
/// code feed the alt accumulator and nothing is emitted; the closing event
/// emits the `<figure>` markup built from the matching optimizer result.
pub open spec fn render_step(
    st: RenderSt,
    e: MdEvent,
    images: Seq<OptimizedImage>,
    rel: Seq<char>,
) -> RenderSt {
    match e {
        MdEvent::ImageStart { url: _, title } => RenderSt {
            in_image: true,
            title: title@,
            alt: Seq::empty(),
            ..st
        },
        MdEvent::ImageEnd => {
            let img = images[st.img_idx];
            let fig = figure_html(
                st.alt,
                st.title,
                img.rel_path@,
                img.width,
                img.height,
                rel,
                !st.first_done,
            );
            RenderSt {
                in_image: false,
                first_done: true,
                img_idx: st.img_idx + 1,
                out: st.out.push(OutModel::Html(fig)),
                ..st
            }
        },
        MdEvent::Text(s) => {
            if st.in_image {
                RenderSt { alt: st.alt + s@, ..st }
            } else {
                RenderSt { out: st.out.push(OutModel::Text(s@)), ..st }
            }
        },
        MdEvent::Code(s) => {
            if st.in_image {
                RenderSt { alt: st.alt + s@, ..st }
            } else {
                RenderSt { out: st.out.push(OutModel::Code(s@)), ..st }
            }
        },
        MdEvent::Other(ev) => {
            if st.in_image {
                st
            } else {
                RenderSt { out: st.out.push(OutModel::Pass(ev)), ..st }
            }
        },
    }
}

pub open spec fn render_fold(
    events: Seq<MdEvent>,
    images: Seq<OptimizedImage>,
    rel: Seq<char>,
) -> RenderSt
    decreases events.len(),
{
    if events.len() == 0 {
        render_init()
    } else {
        render_step(render_fold(events.drop_last(), images, rel), events.last(), images, rel)
    }
}

/// The machine's image counter equals the number of URLs collected so far.
proof fn lemma_render_idx_is_url_count(
    events: Seq<MdEvent>,
    images: Seq<OptimizedImage>,
    rel: Seq<char>,
)
    ensures
        render_fold(events, images, rel).img_idx == urls_fold(events).urls.len(),
    decreases events.len(),
{
    if events.len() > 0 {
        lemma_render_idx_is_url_count(events.drop_last(), images, rel);
    }
}

/// The URL count of a prefix never exceeds the whole document's.
proof fn lemma_urls_prefix_bound(events: Seq<MdEvent>, i: int)
    requires
        0 <= i <= events.len(),
    ensures
        urls_fold(events.subrange(0, i)).urls.len() <= image_urls(events).len(),
    decreases events.len() - i,
{
    if i == events.len() {
        assert(events.subrange(0, i) =~= events);
    } else {
        assert(events.subrange(0, i + 1).drop_last() =~= events.subrange(0, i));
        lemma_urls_prefix_bound(events, i + 1);
    }
}

/// Run the rewriting machine over the whole event stream. The caller hands
/// one optimizer result per image URL, in document order.
pub fn render_events(
    events: Vec<MdEvent>,
    images: &Vec<OptimizedImage>,
    relative_root: &str,
) -> (r: Vec<OutItem>)
    requires
        images@.len() == image_urls(events@).len(),
    ensures
        r@.map_values(|o: OutItem| o@) == render_fold(events@, images@, relative_root@).out,
{
    let ghost orig = events@;
    let mut events = events;
    let mut out: Vec<OutItem> = Vec::new();
    let mut in_image = false;
    let mut title = String::new();
    let mut alt = String::new();
    let mut first_done = false;
    let mut img_idx: usize = 0;
    let mut i: usize = 0;
    let n = events.len();
    let m = images.len();
    proof {
        assert(orig.subrange(0, 0) =~= Seq::<MdEvent>::empty());
        assert(orig.subrange(0, n as int) =~= orig);
        assert(out@.map_values(|o: OutItem| o@) =~= Seq::<OutModel>::empty());
    }
    while i < n
        invariant
            i <= n,
            n == orig.len(),
            events@ == orig.subrange(i as int, n as int),
            images@.len() == image_urls(orig).len(),
            images@.len() == m,
            ({
                let st = render_fold(orig.subrange(0, i as int), images@, relative_root@);
                &&& in_image == st.in_image
                &&& title@ == st.title
                &&& alt@ == st.alt
                &&& first_done == st.first_done
                &&& img_idx == st.img_idx
                &&& out@.map_values(|o: OutItem| o@) == st.out
            }),
        decreases n - i,
    {
        proof {
            assert(orig.subrange(0, i + 1).drop_last() =~= orig.subrange(0, i as int));
            assert(orig.subrange(0, i + 1).last() == orig[i as int]);
            assert(orig.subrange(i as int, n as int)[0] == orig[i as int]);
        }
        let ghost old_out = out@.map_values(|o: OutItem| o@);
        let e = events.remove(0);
        proof {
            assert(e == orig[i as int]);
            assert(events@ =~= orig.subrange(i + 1, n as int));
        }
        match e {
            MdEvent::ImageStart { url: _, title: t } => {
                in_image = true;
                title = t;
                alt = String::new();
            },
            MdEvent::ImageEnd => {
                proof {
                    lemma_render_idx_is_url_count(orig.subrange(0, i as int), images@,
                        relative_root@);
                    lemma_render_idx_is_url_count(orig.subrange(0, i + 1), images@,
                        relative_root@);
                    lemma_urls_prefix_bound(orig, i + 1);
                    assert(urls_fold(orig.subrange(0, i + 1)).urls.len() == img_idx + 1);
                    assert(img_idx < images@.len());
                }
                let opt = &images[img_idx];
                let fig = build_figure_html(
                    alt.as_str(),
                    title.as_str(),
                    opt,
                    relative_root,
                    !first_done,
                );
                out.push(OutItem::Html(fig));
                proof {
                    assert(out@.map_values(|o: OutItem| o@) =~= old_out.push(
                        OutModel::Html(fig@),
                    ));
                }
                in_image = false;
                first_done = true;
                img_idx += 1;
            },
            MdEvent::Text(s) => {
                if in_image {
                    alt.append(s.as_str());
                } else {
                    let ghost sv = s@;
                    out.push(OutItem::Text(s));
                    proof {
                        assert(out@.map_values(|o: OutItem| o@) =~= old_out.push(
                            OutModel::Text(sv),
                        ));
                    }
                }
            },
            MdEvent::Code(s) => {
                if in_image {
                    alt.append(s.as_str());
                } else {
                    let ghost sv = s@;
                    out.push(OutItem::Code(s));
                    proof {
                        assert(out@.map_values(|o: OutItem| o@) =~= old_out.push(
                            OutModel::Code(sv),
                        ));
                    }
                }
            },
            MdEvent::Other(ev) => {
                if !in_image {
                    let ghost evv = ev;
                    out.push(OutItem::Pass(ev));
                    proof {
                        assert(out@.map_values(|o: OutItem| o@) =~= old_out.push(
                            OutModel::Pass(evv),
                        ));
                    }
                }
            },
        }
        i += 1;
    }
    proof {
        assert(orig.subrange(0, n as int) =~= orig);
    }
    out
}

/// Convert markdown events to final article HTML: the verified rewriting
/// machine produces the item stream, the external serializer renders it.
/// The caller hands one optimizer result per image URL, in document order.
pub fn render_markdown(
    events: Vec<MdEvent>,
    images: &Vec<OptimizedImage>,
    relative_root: &str,
) -> (r: String)
    requires
        images@.len() == image_urls(events@).len(),
    ensures
        r@ == html_of(render_fold(events@, images@, relative_root@).out),
{
    let items = render_events(events, images, relative_root);
    events_to_html(items)
}

} // verus!
