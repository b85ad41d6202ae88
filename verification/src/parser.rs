//! Markdown metadata extraction.
//!
//! Scans the raw markdown text for a title line (`# ...`) and a tag line
//! (`Tags: a, b`), and locates the first inline image reference. Extraction
//! never fails outright: a missing title line falls back to the file's base
//! name, and invalid tags are dropped with a recorded warning while the
//! valid ones are kept in order.

use vstd::prelude::*;
use crate::error::{BuildError, InvalidTagReason};
use crate::html_safe::{HtmlSafe, escape_seq};
use crate::tag::{Tag, has_forbidden_tag_char, TAG_MAX_LEN};
use crate::text::{
    chars_of, find_char, find_char_at, has_prefix, has_prefix_chars, lemma_find_char, lines_spec,
    split_lines, string_of, subrange_chars, trim_chars, trim_spec,
};

verus! {

/// Parsed metadata from a markdown post.
#[derive(Debug, Clone)]
pub struct PostMetadata {
    pub title: HtmlSafe,
    pub tags: Vec<Tag>,
    pub raw_title: String,
}

/// The title marker: a line beginning `# `.
pub open spec fn title_marker() -> Seq<char> {
    seq!['#', ' ']
}

/// The tag-line marker.
pub open spec fn tags_marker() -> Seq<char> {
    seq!['T', 'a', 'g', 's', ':']
}

pub open spec fn is_title_line(l: Seq<char>) -> bool {
    has_prefix(l, title_marker())
}

/// A tag line is recognized after trimming.
pub open spec fn is_tags_line(l: Seq<char>) -> bool {
    has_prefix(trim_spec(l), tags_marker())
}

/// Index of the first title line (or `ls.len()` if none).
pub open spec fn first_title_idx(ls: Seq<Seq<char>>) -> int
    decreases ls.len(),
{
    if ls.len() == 0 {
        0
    } else if is_title_line(ls[0]) {
        0
    } else {
        1 + first_title_idx(ls.drop_first())
    }
}

pub proof fn lemma_first_title_idx(ls: Seq<Seq<char>>)
    ensures
        0 <= first_title_idx(ls) <= ls.len(),
        first_title_idx(ls) < ls.len() ==> is_title_line(ls[first_title_idx(ls)]),
        forall|j: int| 0 <= j < first_title_idx(ls) ==> !is_title_line(#[trigger] ls[j]),
    decreases ls.len(),
{
    if ls.len() > 0 && !is_title_line(ls[0]) {
        lemma_first_title_idx(ls.drop_first());
        let f = first_title_idx(ls);
        if f < ls.len() {
            assert(ls[f] == ls.drop_first()[f - 1]);
        }
        assert forall|j: int| 0 <= j < f implies !is_title_line(#[trigger] ls[j]) by {
            if j > 0 {
                assert(ls[j] == ls.drop_first()[j - 1]);
            }
        }
    }
}

/// Index of the first tag line (or `ls.len()` if none).
pub open spec fn first_tags_idx(ls: Seq<Seq<char>>) -> int
    decreases ls.len(),
{
    if ls.len() == 0 {
        0
    } else if is_tags_line(ls[0]) {
        0
    } else {
        1 + first_tags_idx(ls.drop_first())
    }
}

pub proof fn lemma_first_tags_idx(ls: Seq<Seq<char>>)
    ensures
        0 <= first_tags_idx(ls) <= ls.len(),
        first_tags_idx(ls) < ls.len() ==> is_tags_line(ls[first_tags_idx(ls)]),
        forall|j: int| 0 <= j < first_tags_idx(ls) ==> !is_tags_line(#[trigger] ls[j]),
    decreases ls.len(),
{
    if ls.len() > 0 && !is_tags_line(ls[0]) {
        lemma_first_tags_idx(ls.drop_first());
        let f = first_tags_idx(ls);
        if f < ls.len() {
            assert(ls[f] == ls.drop_first()[f - 1]);
        }
        assert forall|j: int| 0 <= j < f implies !is_tags_line(#[trigger] ls[j]) by {
            if j > 0 {
                assert(ls[j] == ls.drop_first()[j - 1]);
            }
        }
    }
}

/// The raw (unescaped) title of a post: the first `# ` line with the marker
/// stripped and the rest trimmed, or the fallback when no such line exists.
pub open spec fn raw_title_spec(md: Seq<char>, fallback: Seq<char>) -> Seq<char> {
    let ls = lines_spec(md);
    let i = first_title_idx(ls);
    if i < ls.len() {
        trim_spec(ls[i].skip(2))
    } else {
        fallback
    }
}

/// The comma-separated segments of the first tag line's remainder, raw
/// (untrimmed); empty when the post has no tag line.
pub open spec fn tag_segments(md: Seq<char>) -> Seq<Seq<char>> {
    spec_line_segments(lines_spec(md))
}

/// Split on commas. Unlike line splitting, a trailing comma produces a
/// final empty segment, and an empty input is one empty segment.
pub open spec fn split_commas(s: Seq<char>) -> Seq<Seq<char>>
    decreases s.len(),
    via split_commas_dec
{
    let i = find_char(s, ',');
    if i == s.len() {
        seq![s]
    } else {
        seq![s.subrange(0, i)] + split_commas(s.subrange(i + 1, s.len() as int))
    }
}

#[via_fn]
proof fn split_commas_dec(s: Seq<char>) {
    lemma_find_char(s, ',');
}

pub proof fn lemma_split_commas_step(s: Seq<char>, i: int)
    requires
        0 <= i < s.len(),
        s[i] == ',',
        forall|j: int| 0 <= j < i ==> s[j] != ',',
    ensures
        split_commas(s) == seq![s.subrange(0, i)] + split_commas(s.subrange(i + 1, s.len() as int)),
{
    lemma_find_char(s, ',');
    let f = find_char(s, ',');
    if f < i {
        assert(s[f] != ',');
    }
    if i < f {
        assert(s[i] != ',');
    }
    assert(f == i);
}

pub proof fn lemma_split_commas_last(s: Seq<char>)
    requires
        forall|j: int| 0 <= j < s.len() ==> s[j] != ',',
    ensures
        split_commas(s) == seq![s],
{
    lemma_find_char(s, ',');
    let f = find_char(s, ',');
    if f < s.len() {
        assert(s[f] != ',');
    }
}

/// Split a character vector on commas.
pub fn split_commas_chars(v: &Vec<char>) -> (r: Vec<Vec<char>>)
    ensures
        r.deep_view() == split_commas(v@),
{
    let n = v.len();
    let mut r: Vec<Vec<char>> = Vec::new();
    let mut start: usize = 0;
    let mut i: usize = 0;
    proof {
        assert(v@.subrange(0, n as int) =~= v@);
        assert(r.deep_view() + split_commas(v@) =~~= split_commas(v@));
    }
    while i < n
        invariant
            start <= i <= n,
            n == v@.len(),
            forall|j: int| start <= j < i ==> v@[j] != ',',
            split_commas(v@) == r.deep_view() + split_commas(v@.subrange(start as int, n as int)),
        decreases n - i,
    {
        if v[i] == ',' {
            let ghost old_deep = r.deep_view();
            let seg = subrange_chars(v, start, i);
            r.push(seg);
            proof {
                let rest = v@.subrange(start as int, n as int);
                assert(rest[i - start] == v@[i as int]);
                assert forall|j: int| 0 <= j < i - start implies rest[j] != ',' by {
                    assert(rest[j] == v@[start + j]);
                }
                lemma_split_commas_step(rest, i - start);
                assert(rest.subrange(0, i - start) =~= v@.subrange(start as int, i as int));
                assert(rest.subrange(i - start + 1, rest.len() as int) =~= v@.subrange(
                    i + 1,
                    n as int,
                ));
                assert(r.deep_view() =~~= old_deep.push(seg@));
                assert(old_deep.push(seg@) =~= old_deep + seq![seg@]);
                assert((old_deep + seq![seg@]) + split_commas(v@.subrange(i + 1, n as int))
                    =~= old_deep + (seq![seg@] + split_commas(v@.subrange(i + 1, n as int))));
            }
            start = i + 1;
        }
        i += 1;
    }
    let ghost old_deep = r.deep_view();
    let seg = subrange_chars(v, start, n);
    r.push(seg);
    proof {
        let rest = v@.subrange(start as int, n as int);
        assert forall|j: int| 0 <= j < rest.len() implies rest[j] != ',' by {
            assert(rest[j] == v@[start + j]);
        }
        lemma_split_commas_last(rest);
        assert(r.deep_view() =~~= old_deep.push(seg@));
        assert(old_deep.push(seg@) =~= old_deep + seq![seg@]);
    }
    r
}

/// A segment yields a valid tag.
pub open spec fn tag_ok(seg: Seq<char>) -> bool {
    let t = trim_spec(seg);
    t.len() > 0 && !has_forbidden_tag_char(t) && t.len() <= TAG_MAX_LEN
}

/// Why a failing segment fails, with the precedence `Tag::new` documents.
pub open spec fn tag_fail_reason(seg: Seq<char>) -> InvalidTagReason {
    let t = trim_spec(seg);
    if t.len() == 0 {
        InvalidTagReason::Empty
    } else if has_forbidden_tag_char(t) {
        InvalidTagReason::ForbiddenChars
    } else {
        InvalidTagReason::TooLong
    }
}

/// The trimmed forms of the valid segments, in order.
pub open spec fn kept_tags(segs: Seq<Seq<char>>) -> Seq<Seq<char>>
    decreases segs.len(),
{
    if segs.len() == 0 {
        Seq::empty()
    } else {
        kept_tags(segs.drop_last()) + if tag_ok(segs.last()) {
            seq![trim_spec(segs.last())]
        } else {
            Seq::empty()
        }
    }
}

/// The raw invalid segments, in order.
pub open spec fn dropped_tags(segs: Seq<Seq<char>>) -> Seq<Seq<char>>
    decreases segs.len(),
{
    if segs.len() == 0 {
        Seq::empty()
    } else {
        dropped_tags(segs.drop_last()) + if !tag_ok(segs.last()) {
            seq![segs.last()]
        } else {
            Seq::empty()
        }
    }
}

/// Extract metadata (title, tags) from markdown content; invalid tags are
/// dropped, each with a recorded warning.
pub fn extract_metadata(markdown: &str, fallback_title: &str) -> (r: (
    PostMetadata,
    Vec<BuildError>,
))
    ensures
        r.0.raw_title@ == raw_title_spec(markdown@, fallback_title@),
        r.0.title@ == escape_seq(raw_title_spec(markdown@, fallback_title@)),
        r.0.tags@.map_values(|t: Tag| t@) == kept_tags(tag_segments(markdown@)),
        forall|i: int| 0 <= i < r.0.tags@.len() ==> (#[trigger] r.0.tags@[i]).wf(),
        r.1@.len() == dropped_tags(tag_segments(markdown@)).len(),
        forall|i: int|
            0 <= i < r.1@.len() ==> ((#[trigger] r.1@[i]) matches BuildError::InvalidTag {
                tag,
                reason,
            } && tag@ == dropped_tags(tag_segments(markdown@))[i] && reason == tag_fail_reason(
                dropped_tags(tag_segments(markdown@))[i],
            )),
{
    let cs = chars_of(markdown);
    let ls = split_lines(&cs);
    let raw_title = find_raw_title(&ls, fallback_title);
    proof {
        assert(raw_title@ == raw_title_spec(markdown@, fallback_title@));
    }
    let title = HtmlSafe::escape(raw_title.as_str());
    let (tags, warnings) = collect_tags(&ls);
    proof {
        assert(tags@.map_values(|t: Tag| t@) == kept_tags(tag_segments(markdown@)));
    }
    (PostMetadata { title, tags, raw_title }, warnings)
}

/// Find the raw title among the lines, or fall back.
fn find_raw_title(ls: &Vec<Vec<char>>, fallback_title: &str) -> (r: String)
    ensures
        ({
            let lss = ls.deep_view();
            let i = first_title_idx(lss);
            &&& i < lss.len() ==> r@ == trim_spec(lss[i].skip(2))
            &&& i >= lss.len() ==> r@ == fallback_title@
        }),
{
    let marker = chars_of("# ");
    proof {
        reveal_strlit("# ");
        assert("# "@ =~= title_marker());
        lemma_first_title_idx(ls.deep_view());
    }
    let n = ls.len();
    let mut i: usize = 0;
    while i < n
        invariant
            i <= n,
            n == ls.deep_view().len(),
            marker@ == title_marker(),
            forall|j: int| 0 <= j < i ==> !is_title_line(#[trigger] ls.deep_view()[j]),
            0 <= first_title_idx(ls.deep_view()) <= n,
            first_title_idx(ls.deep_view()) < n ==> is_title_line(
                ls.deep_view()[first_title_idx(ls.deep_view())],
            ),
            forall|j: int|
                0 <= j < first_title_idx(ls.deep_view()) ==> !is_title_line(
                    #[trigger] ls.deep_view()[j],
                ),
        decreases n - i,
    {
        proof {
            assert(ls.deep_view()[i as int] == ls@[i as int].deep_view());
            assert(ls@[i as int].deep_view() == ls@[i as int]@);
        }
        if has_prefix_chars(&ls[i], &marker) {
            proof {
                let lss = ls.deep_view();
                let f = first_title_idx(lss);
                assert(is_title_line(lss[i as int]));
                if f < i {
                    assert(!is_title_line(lss[f]));
                }
                if i < f {
                    assert(!is_title_line(lss[i as int]));
                }
                assert(f == i);
            }
            let line = &ls[i];
            let tail = subrange_chars(line, 2, line.len());
            let trimmed = trim_chars(&tail);
            proof {
                assert(tail@ =~= ls.deep_view()[i as int].skip(2));
            }
            return string_of(&trimmed);
        }
        i += 1;
    }
    proof {
        let lss = ls.deep_view();
        let f = first_title_idx(lss);
        if f < n {
            assert(!is_title_line(lss[f]));
        }
    }
    crate::text::str_to_string(fallback_title)
}

/// Collect validated tags and warnings from the first tag line.
fn collect_tags(ls: &Vec<Vec<char>>) -> (r: (Vec<Tag>, Vec<BuildError>))
    ensures
        ({
            let segs = spec_line_segments(ls.deep_view());
            &&& r.0@.map_values(|t: Tag| t@) == kept_tags(segs)
            &&& forall|i: int| 0 <= i < r.0@.len() ==> (#[trigger] r.0@[i]).wf()
            &&& r.1@.len() == dropped_tags(segs).len()
            &&& forall|i: int|
                0 <= i < r.1@.len() ==> ((#[trigger] r.1@[i]) matches BuildError::InvalidTag {
                    tag,
                    reason,
                } && tag@ == dropped_tags(segs)[i] && reason == tag_fail_reason(
                    dropped_tags(segs)[i],
                ))
        }),
{
    let marker = chars_of("Tags:");
    proof {
        reveal_strlit("Tags:");
        assert("Tags:"@ =~= tags_marker());
        lemma_first_tags_idx(ls.deep_view());
    }
    let n = ls.len();
    let mut i: usize = 0;
    while i < n
        invariant
            i <= n,
            n == ls.deep_view().len(),
            marker@ == tags_marker(),
            forall|j: int| 0 <= j < i ==> !is_tags_line(#[trigger] ls.deep_view()[j]),
            0 <= first_tags_idx(ls.deep_view()) <= n,
            first_tags_idx(ls.deep_view()) < n ==> is_tags_line(
                ls.deep_view()[first_tags_idx(ls.deep_view())],
            ),
            forall|j: int|
                0 <= j < first_tags_idx(ls.deep_view()) ==> !is_tags_line(
                    #[trigger] ls.deep_view()[j],
                ),
        decreases n - i,
    {
        proof {
            assert(ls.deep_view()[i as int] == ls@[i as int].deep_view());
            assert(ls@[i as int].deep_view() == ls@[i as int]@);
        }
        let trimmed = trim_chars(&ls[i]);
        if has_prefix_chars(&trimmed, &marker) {
            proof {
                let lss = ls.deep_view();
                let f = first_tags_idx(lss);
                assert(is_tags_line(lss[i as int]));
                if f < i {
                    assert(!is_tags_line(lss[f]));
                }
                if i < f {
                    assert(!is_tags_line(lss[i as int]));
                }
                assert(f == i);
            }
            let rest = subrange_chars(&trimmed, 5, trimmed.len());
            proof {
                assert(rest@ =~= trim_spec(ls.deep_view()[i as int]).skip(5));
            }
            let segs = split_commas_chars(&rest);
            return validate_segments(&segs);
        }
        i += 1;
    }
    let tags: Vec<Tag> = Vec::new();
    let warnings: Vec<BuildError> = Vec::new();
    proof {
        let lss = ls.deep_view();
        let f = first_tags_idx(lss);
        if f < n {
            assert(!is_tags_line(lss[f]));
        }
        assert(kept_tags(Seq::empty()) =~= Seq::<Seq<char>>::empty());
        assert(dropped_tags(Seq::empty()) =~= Seq::<Seq<char>>::empty());
        assert(tags@.map_values(|t: Tag| t@) =~= Seq::<Seq<char>>::empty());
    }
    (tags, warnings)
}

/// The URL of the first inline image reference, by a simple textual scan:
/// the first `![`, the next `](` after it, the URL up to the closing `)`,
/// cut at the first space (so a quoted title is not part of the URL).
pub open spec fn first_image_url_spec(md: Seq<char>) -> Option<Seq<char>> {
    let a = crate::text::find_seq(md, seq!['!', '[']);
    if a == md.len() {
        None
    } else {
        let rest1 = md.skip(a);
        let b = crate::text::find_seq(rest1, seq![']', '(']);
        if b == rest1.len() {
            None
        } else {
            let rest2 = rest1.skip(b + 2);
            let c = find_char(rest2, ')');
            if c == rest2.len() {
                None
            } else {
                let url_full = rest2.subrange(0, c);
                Some(url_full.subrange(0, find_char(url_full, ' ')))
            }
        }
    }
}

/// Locate the first inline image reference in the markdown source, for the
/// LCP preload hint.
pub fn first_image_url(markdown: &str) -> (r: Option<String>)
    ensures
        ({
            let spec = first_image_url_spec(markdown@);
            &&& r is Some <==> spec is Some
            &&& r matches Some(u) ==> u@ == spec->0
        }),
{
    let cs = chars_of(markdown);
    let open_pat = chars_of("![");
    let close_pat = chars_of("](");
    proof {
        reveal_strlit("![");
        reveal_strlit("](");
        assert("!["@ =~= seq!['!', '[']);
        assert("]("@ =~= seq![']', '(']);
    }
    let a = crate::text::find_seq_at(&cs, &open_pat);
    if a == cs.len() {
        return None;
    }
    proof {
        crate::text::lemma_find_seq(cs@, open_pat@);
    }
    let rest1 = subrange_chars(&cs, a, cs.len());
    proof {
        assert(rest1@ =~= cs@.skip(a as int));
    }
    let b = crate::text::find_seq_at(&rest1, &close_pat);
    if b == rest1.len() {
        return None;
    }
    proof {
        crate::text::lemma_find_seq(rest1@, close_pat@);
    }
    let rest2 = subrange_chars(&rest1, b + 2, rest1.len());
    proof {
        assert(rest2@ =~= rest1@.skip(b + 2));
    }
    let c = find_char_at(&rest2, ')');
    if c == rest2.len() {
        proof {
            lemma_find_char(rest2@, ')');
        }
        return None;
    }
    proof {
        lemma_find_char(rest2@, ')');
    }
    let url_full = subrange_chars(&rest2, 0, c);
    let sp = find_char_at(&url_full, ' ');
    proof {
        lemma_find_char(url_full@, ' ');
    }
    let url = subrange_chars(&url_full, 0, sp);
    Some(string_of(&url))
}

/// Which segments `collect_tags` validates: those of the first tag line.
pub open spec fn spec_line_segments(lss: Seq<Seq<char>>) -> Seq<Seq<char>> {
    let i = first_tags_idx(lss);
    if i < lss.len() {
        split_commas(trim_spec(lss[i]).skip(5))
    } else {
        Seq::empty()
    }
}

/// Validate each segment in order, keeping the good and recording the bad.
fn validate_segments(segs: &Vec<Vec<char>>) -> (r: (Vec<Tag>, Vec<BuildError>))
    ensures
        r.0@.map_values(|t: Tag| t@) == kept_tags(segs.deep_view()),
        forall|i: int| 0 <= i < r.0@.len() ==> (#[trigger] r.0@[i]).wf(),
        r.1@.len() == dropped_tags(segs.deep_view()).len(),
        forall|i: int|
            0 <= i < r.1@.len() ==> ((#[trigger] r.1@[i]) matches BuildError::InvalidTag {
                tag,
                reason,
            } && tag@ == dropped_tags(segs.deep_view())[i] && reason == tag_fail_reason(
                dropped_tags(segs.deep_view())[i],
            )),
{
    let n = segs.len();
    let mut tags: Vec<Tag> = Vec::new();
    let mut warnings: Vec<BuildError> = Vec::new();
    let mut i: usize = 0;
    proof {
        assert(segs.deep_view().subrange(0, 0) =~= Seq::<Seq<char>>::empty());
        assert(kept_tags(Seq::empty()) =~= Seq::<Seq<char>>::empty());
        assert(dropped_tags(Seq::empty()) =~= Seq::<Seq<char>>::empty());
        assert(tags@.map_values(|t: Tag| t@) =~= Seq::<Seq<char>>::empty());
    }
    while i < n
        invariant
            i <= n,
            n == segs.deep_view().len(),
            tags@.map_values(|t: Tag| t@) == kept_tags(segs.deep_view().subrange(0, i as int)),
            forall|k: int| 0 <= k < tags@.len() ==> (#[trigger] tags@[k]).wf(),
            warnings@.len() == dropped_tags(segs.deep_view().subrange(0, i as int)).len(),
            forall|k: int|
                0 <= k < warnings@.len() ==> ((#[trigger] warnings@[k])
                    matches BuildError::InvalidTag { tag, reason } && tag@ == dropped_tags(
                    segs.deep_view().subrange(0, i as int),
                )[k] && reason == tag_fail_reason(
                    dropped_tags(segs.deep_view().subrange(0, i as int))[k],
                )),
        decreases n - i,
    {
        let ghost pre = segs.deep_view().subrange(0, i as int);
        let ghost post = segs.deep_view().subrange(0, i + 1);
        proof {
            assert(post.drop_last() =~= pre);
            assert(post.last() == segs.deep_view()[i as int]);
            assert(segs.deep_view()[i as int] == segs@[i as int]@);
        }
        let seg = string_of(&segs[i]);
        match Tag::new(seg.as_str()) {
            Ok(t) => {
                let ghost old_tags = tags@;
                tags.push(t);
                proof {
                    assert(tags@.map_values(|t: Tag| t@) =~= old_tags.map_values(|t: Tag| t@).push(
                        t@,
                    ));
                    assert(kept_tags(post) =~= kept_tags(pre).push(trim_spec(post.last())));
                }
            },
            Err(e) => {
                proof {
                    assert(!tag_ok(segs.deep_view()[i as int]));
                    assert(dropped_tags(post) =~= dropped_tags(pre).push(post.last()));
                }
                warnings.push(e);
            },
        }
        i += 1;
    }
    proof {
        assert(segs.deep_view().subrange(0, n as int) =~= segs.deep_view());
    }
    (tags, warnings)
}

} // verus!
