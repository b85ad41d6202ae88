//! Build orchestration: the pure phases of the multi-phase build.
//!
//! The build proceeds discover → parse (parallel) → merge → render
//! (parallel) → generate listings → finalize. The phases that touch the
//! filesystem hand their observations in as plain values (directory
//! listings, file contents, modification times) and take plain values
//! back; everything that is decided — filtering, metadata, the corpus-wide
//! tag set, page content, failure classification — is computed and
//! verified here. Parallel phases are a plain map over independent items:
//! each item's result is computed independently and the merge below is
//! insensitive to completion order.

use vstd::prelude::*;
use vstd::string::StringExecFns;
use crate::config::Config;
use crate::error::BuildError;
use crate::image::{after_last, base_name, lemma_after_last};
use crate::parser::{extract_metadata, first_image_url, first_image_url_spec, PostMetadata};
use crate::tag::{lower_of, Tag};
use crate::tag_set::TagSet;
use crate::template::{PostListItem, PostListModel};
use crate::text::{
    chars_of, lemma_lex_lt_asym, lemma_lex_lt_trans, lemma_lex_lt_trichotomy, lex_lt,
    lex_lt_chars, str_to_string, subrange_chars,
};

verus! {

/// The display form of a modification time, named: `"%Y.%m.%d %H:%M"` in
/// the configured fixed offset is a function of the timestamp and the
/// offset alone.
pub uninterp spec fn display_date_of(secs: int, offset_hours: int) -> Seq<char>;

/// Relies on chrono (`DateTime::from_timestamp`, `FixedOffset::east_opt`,
/// and strftime formatting): renders a unix timestamp as `YYYY.MM.DD
/// HH:MM` in a fixed hour offset. `from_timestamp` is documented to return
/// `None` only out of range; every timestamp up to year 9999 is in range.
#[verifier::external_body]
fn format_display_date(secs: i64, offset_hours: i32) -> (r: Option<String>)
    requires
        -23 <= offset_hours <= 23,
    ensures
        r matches Some(s) ==> s@ == display_date_of(secs as int, offset_hours as int),
        0 <= secs <= 253402300799 ==> r is Some,
{
    let offset = chrono::FixedOffset::east_opt(offset_hours * 3600)?;
    let dt = chrono::DateTime::from_timestamp(secs, 0)?;
    Some(dt.with_timezone(&offset).format("%Y.%m.%d %H:%M").to_string())
}

/// The unit of work between the parse phase and the render phase, owned
/// exclusively by the orchestrator.
#[derive(Debug, Clone)]
pub struct ParsedPost {
    pub file_stem: String,
    pub metadata: PostMetadata,
    pub display_date: String,
    pub raw_content: String,
    pub first_image_url: Option<String>,
}

/// Parse one source file's content into a `ParsedPost`, given the file's
/// base name and modification time. Pure: never fails; tag problems come
/// back as recorded warnings.
pub fn parse_post(
    file_stem: &str,
    markdown: &str,
    mtime_secs: i64,
    offset_hours: i32,
) -> (r: (ParsedPost, Vec<BuildError>))
    requires
        -23 <= offset_hours <= 23,
    ensures
        r.0.file_stem@ == file_stem@,
        r.0.raw_content@ == markdown@,
        r.0.metadata.raw_title@ == crate::parser::raw_title_spec(markdown@, file_stem@),
        r.0.metadata.title@ == crate::html_safe::escape_seq(
            crate::parser::raw_title_spec(markdown@, file_stem@),
        ),
        r.0.metadata.tags@.map_values(|t: Tag| t@) == crate::parser::kept_tags(
            crate::parser::tag_segments(markdown@),
        ),
        forall|i: int| 0 <= i < r.0.metadata.tags@.len() ==> (#[trigger] r.0.metadata.tags@[i]).wf(),
        r.1@.len() == crate::parser::dropped_tags(crate::parser::tag_segments(markdown@)).len(),
        forall|i: int|
            0 <= i < r.1@.len() ==> ((#[trigger] r.1@[i]) matches BuildError::InvalidTag {
                tag,
                reason,
            } && tag@ == crate::parser::dropped_tags(crate::parser::tag_segments(markdown@))[i]
                && reason == crate::parser::tag_fail_reason(
                crate::parser::dropped_tags(crate::parser::tag_segments(markdown@))[i],
            )),
        0 <= mtime_secs <= 253402300799 ==> r.0.display_date@ == display_date_of(
            mtime_secs as int,
            offset_hours as int,
        ),
        r.0.display_date@ == display_date_of(mtime_secs as int, offset_hours as int)
            || r.0.display_date@ == Seq::<char>::empty(),
        ({
            let spec = first_image_url_spec(markdown@);
            &&& r.0.first_image_url is Some <==> spec is Some
            &&& r.0.first_image_url matches Some(u) ==> u@ == spec->0
        }),
{
    let (metadata, warnings) = extract_metadata(markdown, file_stem);
    let display_date = match format_display_date(mtime_secs, offset_hours) {
        Some(s) => s,
        None => String::new(),
    };
    let first = first_image_url(markdown);
    (
        ParsedPost {
            file_stem: str_to_string(file_stem),
            metadata,
            display_date,
            raw_content: str_to_string(markdown),
            first_image_url: first,
        },
        warnings,
    )
}

/// A file name with the markdown extension, as `Path::extension` sees it:
/// the base name has a `.` past its first character, and what follows the
/// last `.` is `md`.
pub open spec fn is_md_file(name: Seq<char>) -> bool {
    let b = base_name(name);
    let d = after_last(b, '.');
    d > 1 && b.subrange(d, b.len() as int) == seq!['m', 'd']
}

/// The markdown files of a directory listing, in listing order.
pub open spec fn md_files(files: Seq<Seq<char>>) -> Seq<Seq<char>>
    decreases files.len(),
{
    if files.len() == 0 {
        Seq::empty()
    } else {
        md_files(files.drop_last()) + if is_md_file(files.last()) {
            seq![files.last()]
        } else {
            Seq::empty()
        }
    }
}

/// Exec test for `is_md_file`.
fn is_md_file_exec(name: &str) -> (r: bool)
    ensures
        r == is_md_file(name@),
{
    let cs = chars_of(name);
    let b_at = crate::image::after_last_at(&cs, '/');
    proof {
        lemma_after_last(cs@, '/');
    }
    let base = subrange_chars(&cs, b_at, cs.len());
    let d = crate::image::after_last_at(&base, '.');
    proof {
        lemma_after_last(base@, '.');
    }
    if d <= 1 {
        return false;
    }
    if base.len() - d != 2 {
        proof {
            assert(base@.subrange(d as int, base@.len() as int).len() != 2);
        }
        return false;
    }
    let r = base[d] == 'm' && base[d + 1] == 'd';
    proof {
        let ext = base@.subrange(d as int, base@.len() as int);
        assert(ext[0] == base@[d as int]);
        assert(ext[1] == base@[d + 1]);
        if base@[d as int] == 'm' && base@[d + 1] == 'd' {
            assert(ext =~= seq!['m', 'd']);
        } else {
            assert(ext != seq!['m', 'd']) by {
                if ext == seq!['m', 'd'] {
                    assert(ext[0] == 'm' && ext[1] == 'd');
                }
            }
        }
    }
    r
}

/// Phase 1, the decision: an unreadable content directory is fatal;
/// otherwise the listing is filtered to the markdown files.
pub fn discover_posts(listing: Option<Vec<String>>, content_dir: &str) -> (r: Result<
    Vec<String>,
    BuildError,
>)
    ensures
        listing is None ==> (r matches Err(e) && (e matches BuildError::ContentNotReadable {
            path,
            ..
        } && path@ == content_dir@)),
        listing matches Some(fs) ==> (r matches Ok(v) && v@.map_values(|s: String| s@) == md_files(
            fs@.map_values(|s: String| s@),
        )),
{
    let mut files = match listing {
        None => {
            return Err(BuildError::ContentNotReadable {
                path: str_to_string(content_dir),
                message: str_to_string("directory listing failed"),
            });
        },
        Some(fs) => fs,
    };
    let ghost orig = files@.map_values(|s: String| s@);
    let mut out: Vec<String> = Vec::new();
    let mut i: usize = 0;
    let n = files.len();
    proof {
        assert(orig.subrange(0, 0) =~= Seq::<Seq<char>>::empty());
        assert(md_files(Seq::empty()) =~= Seq::<Seq<char>>::empty());
        assert(out@.map_values(|s: String| s@) =~= Seq::<Seq<char>>::empty());
    }
    while i < n
        invariant
            i <= n,
            n == files@.len(),
            orig == files@.map_values(|s: String| s@),
            out@.map_values(|s: String| s@) == md_files(orig.subrange(0, i as int)),
        decreases n - i,
    {
        proof {
            assert(orig.subrange(0, i + 1).drop_last() =~= orig.subrange(0, i as int));
            assert(orig.subrange(0, i + 1).last() == orig[i as int]);
            assert(orig[i as int] == files@[i as int]@);
        }
        let ghost old_out = out@.map_values(|s: String| s@);
        if is_md_file_exec(files[i].as_str()) {
            out.push(files[i].clone());
            proof {
                assert(out@.map_values(|s: String| s@) =~= old_out.push(files@[i as int]@));
            }
        }
        i += 1;
    }
    proof {
        assert(orig.subrange(0, n as int) =~= orig);
    }
    Ok(out)
}

/// The successfully parsed posts, in result order.
pub open spec fn ok_posts(rs: Seq<Result<ParsedPost, BuildError>>) -> Seq<ParsedPost>
    decreases rs.len(),
{
    if rs.len() == 0 {
        Seq::empty()
    } else {
        ok_posts(rs.drop_last()) + match rs.last() {
            Ok(p) => seq![p],
            Err(_) => Seq::empty(),
        }
    }
}

/// The per-file failures, in result order.
pub open spec fn err_list(rs: Seq<Result<ParsedPost, BuildError>>) -> Seq<BuildError>
    decreases rs.len(),
{
    if rs.len() == 0 {
        Seq::empty()
    } else {
        err_list(rs.drop_last()) + match rs.last() {
            Ok(_) => Seq::empty(),
            Err(e) => seq![e],
        }
    }
}

/// The tag texts of one parsed post.
pub open spec fn tags_of_post(p: ParsedPost) -> Set<Seq<char>> {
    p.metadata.tags@.map_values(|t: Tag| t@).to_set()
}

/// The union of all tags over the successfully parsed posts.
pub open spec fn all_tags_set(rs: Seq<Result<ParsedPost, BuildError>>) -> Set<Seq<char>>
    decreases rs.len(),
{
    if rs.len() == 0 {
        Set::empty()
    } else {
        all_tags_set(rs.drop_last()) + match rs.last() {
            Ok(p) => tags_of_post(p),
            Err(_) => Set::empty(),
        }
    }
}

/// Phase 3: collect parse results sequentially; every tag of every
/// successfully parsed post is folded into one corpus-wide tag set, which
/// is frozen afterwards. The outcome does not depend on the order in which
/// the parallel parse tasks completed: the union is the same either way.
pub fn merge_parse_results(results: Vec<Result<ParsedPost, BuildError>>) -> (r: (
    Vec<ParsedPost>,
    TagSet,
    Vec<BuildError>,
))
    ensures
        r.0@ == ok_posts(results@),
        r.2@ == err_list(results@),
        r.1.wf(),
        r.1@.to_set() =~= all_tags_set(results@),
{
    let ghost orig = results@;
    let mut results = results;
    let mut posts: Vec<ParsedPost> = Vec::new();
    let mut tag_set = TagSet::new();
    let mut failures: Vec<BuildError> = Vec::new();
    let mut i: usize = 0;
    let n = results.len();
    proof {
        assert(orig.subrange(0, 0) =~= Seq::<Result<ParsedPost, BuildError>>::empty());
        assert(posts@ =~= ok_posts(orig.subrange(0, 0)));
        assert(failures@ =~= err_list(orig.subrange(0, 0)));
        assert(tag_set@.to_set() =~= all_tags_set(orig.subrange(0, 0)));
        assert(orig.subrange(0, n as int) =~= orig);
    }
    while i < n
        invariant
            i <= n,
            n == orig.len(),
            results@ == orig.subrange(i as int, n as int),
            posts@ == ok_posts(orig.subrange(0, i as int)),
            failures@ == err_list(orig.subrange(0, i as int)),
            tag_set.wf(),
            tag_set@.to_set() =~= all_tags_set(orig.subrange(0, i as int)),
        decreases n - i,
    {
        proof {
            assert(orig.subrange(0, i + 1).drop_last() =~= orig.subrange(0, i as int));
            assert(orig.subrange(0, i + 1).last() == orig[i as int]);
            assert(orig.subrange(i as int, n as int)[0] == orig[i as int]);
        }
        let res = results.remove(0);
        proof {
            assert(res == orig[i as int]);
            assert(results@ =~= orig.subrange(i + 1, n as int));
        }
        match res {
            Ok(p) => {
                let ghost pre_set = tag_set@.to_set();
                let ghost tvs = p.metadata.tags@.map_values(|t: Tag| t@);
                let m = p.metadata.tags.len();
                let mut k: usize = 0;
                proof {
                    assert(tvs.subrange(0, 0) =~= Seq::<Seq<char>>::empty());
                    assert(tvs.subrange(0, 0).to_set() =~= Set::<Seq<char>>::empty());
                    assert(tag_set@.to_set() =~= pre_set + tvs.subrange(0, 0).to_set());
                }
                while k < m
                    invariant
                        k <= m,
                        m == p.metadata.tags@.len(),
                        tvs == p.metadata.tags@.map_values(|t: Tag| t@),
                        tag_set.wf(),
                        tag_set@.to_set() =~= pre_set + tvs.subrange(0, k as int).to_set(),
                    decreases m - k,
                {
                    proof {
                        assert(tvs[k as int] == p.metadata.tags@[k as int]@);
                    }
                    let ghost before = tag_set@.to_set();
                    tag_set.insert(p.metadata.tags[k].duplicate());
                    proof {
                        if before.contains(tvs[k as int]) {
                            assert(tag_set@.to_set() =~= before.insert(tvs[k as int]));
                        }
                        assert(tag_set@.to_set() =~= before.insert(tvs[k as int]));
                        assert(tvs.subrange(0, k + 1).to_set() =~= tvs.subrange(
                            0,
                            k as int,
                        ).to_set().insert(tvs[k as int])) by {
                            let pre_tvs = tvs.subrange(0, k as int);
                            let post_tvs = tvs.subrange(0, k + 1);
                            assert forall|x: Seq<char>|
                                post_tvs.to_set().contains(x) implies pre_tvs.to_set().insert(
                                tvs[k as int],
                            ).contains(x) by {
                                let j = choose|j: int|
                                    0 <= j < post_tvs.len() && #[trigger] post_tvs[j] == x;
                                if j < k {
                                    assert(pre_tvs[j] == x);
                                }
                            }
                            assert forall|x: Seq<char>|
                                pre_tvs.to_set().insert(tvs[k as int]).contains(
                                x,
                            ) implies post_tvs.to_set().contains(x) by {
                                if x == tvs[k as int] {
                                    assert(post_tvs[k as int] == x);
                                } else {
                                    let j = choose|j: int|
                                        0 <= j < pre_tvs.len() && #[trigger] pre_tvs[j] == x;
                                    assert(post_tvs[j] == x);
                                }
                            }
                        }
                        assert(tag_set@.to_set() =~= pre_set + tvs.subrange(0, k + 1).to_set());
                    }
                    k += 1;
                }
                proof {
                    assert(tvs.subrange(0, m as int) =~= tvs);
                    assert(tag_set@.to_set() =~= pre_set + tags_of_post(p));
                }
                posts.push(p);
                proof {
                    assert(posts@ =~= ok_posts(orig.subrange(0, i as int)).push(orig[i as int]->Ok_0));
                    assert(ok_posts(orig.subrange(0, i + 1)) =~= ok_posts(
                        orig.subrange(0, i as int),
                    ).push(orig[i as int]->Ok_0));
                    assert(err_list(orig.subrange(0, i + 1)) =~= err_list(
                        orig.subrange(0, i as int),
                    ));
                }
            },
            Err(e) => {
                failures.push(e);
                proof {
                    assert(failures@ =~= err_list(orig.subrange(0, i as int)).push(
                        orig[i as int]->Err_0,
                    ));
                    assert(err_list(orig.subrange(0, i + 1)) =~= err_list(
                        orig.subrange(0, i as int),
                    ).push(orig[i as int]->Err_0));
                    assert(ok_posts(orig.subrange(0, i + 1)) =~= ok_posts(
                        orig.subrange(0, i as int),
                    ));
                    assert(all_tags_set(orig.subrange(0, i + 1)) =~= all_tags_set(
                        orig.subrange(0, i as int),
                    ));
                }
            },
        }
        i += 1;
    }
    proof {
        assert(orig.subrange(0, n as int) =~= orig);
    }
    (posts, tag_set, failures)
}

/// The output file of a post, relative to the public root.
pub open spec fn post_filename(stem: Seq<char>) -> Seq<char> {
    "posts/"@ + stem + ".html"@
}

/// Derive the listing entry of a parsed post.
pub fn to_post_list_item(p: &ParsedPost) -> (r: PostListItem)
    ensures
        r@.title == p.metadata.title@,
        r@.filename == post_filename(p.file_stem@),
        r@.date == p.display_date@,
        r@.tags == p.metadata.tags@.map_values(|t: Tag| t@),
{
    let mut tags: Vec<Tag> = Vec::new();
    let n = p.metadata.tags.len();
    let mut i: usize = 0;
    while i < n
        invariant
            i <= n,
            n == p.metadata.tags@.len(),
            tags@.len() == i,
            forall|j: int| 0 <= j < i ==> (#[trigger] tags@[j])@ == p.metadata.tags@[j]@,
        decreases n - i,
    {
        tags.push(p.metadata.tags[i].duplicate());
        i += 1;
    }
    let mut filename = str_to_string("posts/");
    filename.append(p.file_stem.as_str());
    filename.append(".html");
    let r = PostListItem {
        title: crate::html_safe::HtmlSafe::from_trusted(p.metadata.title.as_str()),
        filename,
        date: p.display_date.clone(),
        tags,
    };
    proof {
        assert(r@.tags =~= p.metadata.tags@.map_values(|t: Tag| t@));
    }
    r
}

/// Sorted for the index: by filename, lexicographically descending —
/// a recency proxy under date-prefixed file naming.
pub open spec fn sorted_desc(s: Seq<PostListItem>) -> bool {
    forall|i: int, j: int|
        0 <= i < j < s.len() ==> !lex_lt(#[trigger] s[i]@.filename, #[trigger] s[j]@.filename)
}

proof fn lemma_insert_to_multiset(s: Seq<PostListItem>, j: int, x: PostListItem)
    requires
        0 <= j <= s.len(),
    ensures
        s.insert(j, x).to_multiset() =~= s.to_multiset().insert(x),
{
    broadcast use vstd::seq_lib::group_to_multiset_ensures;
    broadcast use vstd::multiset::group_multiset_axioms;

    let a = s.subrange(0, j);
    let b = s.subrange(j, s.len() as int);
    assert(s =~= a + b);
    assert(s.insert(j, x) =~= a.push(x) + b);
    vstd::seq_lib::lemma_multiset_commutative(a, b);
    vstd::seq_lib::lemma_multiset_commutative(a.push(x), b);
    assert(a.push(x).to_multiset() =~= a.to_multiset().insert(x));
    assert((a.to_multiset().insert(x)).add(b.to_multiset()) =~= (a.to_multiset().add(
        b.to_multiset(),
    )).insert(x));
}

/// Sort the post list by filename, descending. The content is unchanged:
/// the result holds exactly the same items.
pub fn sort_posts_desc(posts: Vec<PostListItem>) -> (r: Vec<PostListItem>)
    ensures
        sorted_desc(r@),
        r@.to_multiset() == posts@.to_multiset(),
        r@.len() == posts@.len(),
{
    broadcast use vstd::seq_lib::group_to_multiset_ensures;

    let ghost orig = posts@;
    let mut posts = posts;
    let mut out: Vec<PostListItem> = Vec::new();
    let mut i: usize = 0;
    let n = posts.len();
    proof {
        assert(orig.subrange(0, n as int) =~= orig);
        assert(orig.subrange(0, 0) =~= Seq::<PostListItem>::empty());
        assert(out@.to_multiset() =~= orig.subrange(0, 0).to_multiset());
    }
    while i < n
        invariant
            i <= n,
            n == orig.len(),
            posts@ == orig.subrange(i as int, n as int),
            sorted_desc(out@),
            out@.len() == i,
            out@.to_multiset() == orig.subrange(0, i as int).to_multiset(),
        decreases n - i,
    {
        proof {
            assert(orig.subrange(0, i + 1).drop_last() =~= orig.subrange(0, i as int));
            assert(orig.subrange(0, i + 1).last() == orig[i as int]);
            assert(orig.subrange(i as int, n as int)[0] == orig[i as int]);
        }
        let x = posts.remove(0);
        proof {
            assert(x == orig[i as int]);
            assert(posts@ =~= orig.subrange(i + 1, n as int));
        }
        let xf = chars_of(x.filename.as_str());
        let mut j: usize = 0;
        let olen = out.len();
        while j < olen && !lex_lt_chars(&chars_of(out[j].filename.as_str()), &xf)
            invariant
                j <= olen,
                olen == out@.len(),
                xf@ == x@.filename,
                forall|m: int| 0 <= m < j ==> !lex_lt(#[trigger] out@[m]@.filename, x@.filename),
            decreases olen - j,
        {
            j += 1;
        }
        let ghost old_out = out@;
        out.insert(j, x);
        proof {
            assert(out@ =~= old_out.insert(j as int, x));
            lemma_insert_to_multiset(old_out, j as int, x);
            assert(orig.subrange(0, i + 1) =~= orig.subrange(0, i as int).push(orig[i as int]));
            orig.subrange(0, i as int).to_multiset_ensures();
            assert(orig.subrange(0, i as int).push(orig[i as int]).to_multiset() =~= orig.subrange(
                0,
                i as int,
            ).to_multiset().insert(orig[i as int]));
            assert(sorted_desc(out@)) by {
                let newv = out@;
                let jj = j as int;
                assert forall|a: int, b: int|
                    0 <= a < b < newv.len() implies !lex_lt(
                    #[trigger] newv[a]@.filename,
                    #[trigger] newv[b]@.filename,
                ) by {
                    if a < jj && b < jj {
                        assert(newv[a] == old_out[a] && newv[b] == old_out[b]);
                    } else if a < jj && b == jj {
                        assert(newv[a] == old_out[a] && newv[b] == x);
                    } else if a < jj && b > jj {
                        assert(newv[a] == old_out[a] && newv[b] == old_out[b - 1]);
                    } else if a == jj && b > jj {
                        assert(newv[a] == x && newv[b] == old_out[b - 1]);
                        assert(j < olen);
                        assert(lex_lt(old_out[jj]@.filename, x@.filename));
                        if lex_lt(x@.filename, old_out[b - 1]@.filename) {
                            if b - 1 == jj {
                                lemma_lex_lt_asym(x@.filename, old_out[jj]@.filename);
                            } else {
                                assert(!lex_lt(old_out[jj]@.filename, old_out[b - 1]@.filename));
                                lemma_lex_lt_trichotomy(
                                    old_out[b - 1]@.filename,
                                    old_out[jj]@.filename,
                                );
                                if lex_lt(old_out[b - 1]@.filename, old_out[jj]@.filename) {
                                    lemma_lex_lt_trans(
                                        x@.filename,
                                        old_out[b - 1]@.filename,
                                        old_out[jj]@.filename,
                                    );
                                    lemma_lex_lt_asym(x@.filename, old_out[jj]@.filename);
                                } else {
                                    assert(old_out[b - 1]@.filename == old_out[jj]@.filename);
                                    lemma_lex_lt_asym(x@.filename, old_out[jj]@.filename);
                                }
                            }
                        }
                    } else {
                        assert(a > jj);
                        assert(newv[a] == old_out[a - 1] && newv[b] == old_out[b - 1]);
                    }
                }
            }
        }
        i += 1;
    }
    proof {
        assert(orig.subrange(0, n as int) =~= orig);
    }
    out
}

/// A generated page: where it goes under the public root, and its HTML.
#[derive(Debug)]
pub struct Page {
    pub rel_path: String,
    pub html: String,
}

/// Whether a post carries a tag.
pub open spec fn has_tag(p: PostListModel, tag: Seq<char>) -> bool {
    p.tags.contains(tag)
}

/// The posts carrying a tag, in list order.
pub open spec fn posts_with_tag(posts: Seq<PostListModel>, tag: Seq<char>) -> Seq<PostListModel>
    decreases posts.len(),
{
    if posts.len() == 0 {
        Seq::empty()
    } else {
        posts_with_tag(posts.drop_last(), tag) + if has_tag(posts.last(), tag) {
            seq![posts.last()]
        } else {
            Seq::empty()
        }
    }
}

fn post_has_tag(p: &PostListItem, tag: &Tag) -> (r: bool)
    ensures
        r == has_tag(p@, tag@),
{
    let n = p.tags.len();
    let mut i: usize = 0;
    while i < n
        invariant
            i <= n,
            n == p@.tags.len(),
            forall|j: int| 0 <= j < i ==> p@.tags[j] != tag@,
        decreases n - i,
    {
        proof {
            assert(p@.tags[i as int] == p.tags@[i as int]@);
        }
        if &p.tags[i] == tag {
            proof {
                assert(p@.tags.contains(tag@)) by {
                    assert(p@.tags[i as int] == tag@);
                }
            }
            return true;
        }
        i += 1;
    }
    proof {
        if p@.tags.contains(tag@) {
            let j = choose|j: int| 0 <= j < p@.tags.len() && p@.tags[j] == tag@;
            assert(p@.tags[j] != tag@);
        }
    }
    false
}

/// One listing page: the escaped title in the shell's `<title>` and as the
/// `<h1>`, above the post list.
pub open spec fn list_page_html(
    title_text: Seq<char>,
    posts: Seq<PostListModel>,
    tags: Seq<Seq<char>>,
    rel: Seq<char>,
    brand: Seq<char>,
    css: Option<Seq<char>>,
) -> Seq<char> {
    crate::template::template_spec(
        crate::html_safe::escape_seq(title_text),
        "<h1>"@ + crate::html_safe::escape_seq(title_text) + "</h1>"@
            + crate::template::post_list_html(posts, rel),
        tags,
        rel,
        brand,
        css,
        None,
    )
}

/// Build one listing page.
pub fn build_list_page(
    title_text: &str,
    posts: &Vec<PostListItem>,
    all_tags: &TagSet,
    relative_root: &str,
    config: &Config,
    css: Option<&str>,
) -> (r: String)
    ensures
        r@ == list_page_html(
            title_text@,
            posts@.map_values(|p: PostListItem| p@),
            all_tags@,
            relative_root@,
            config.brand_name@,
            match css {
                Some(c) => Some(c@),
                None => None,
            },
        ),
{
    let title = crate::html_safe::HtmlSafe::escape(title_text);
    let list = crate::template::render_post_list(posts, relative_root);
    let mut content = str_to_string("<h1>");
    content.append(title.as_str());
    content.append("</h1>");
    content.append(list.as_str());
    let ctx = match css {
        Some(c) => crate::template::RenderContext::new(config).with_css(c),
        None => crate::template::RenderContext::new(config),
    };
    crate::template::template(&title, content.as_str(), all_tags, relative_root, &ctx)
}

/// The view of an optional borrowed stylesheet.
pub open spec fn css_view(css: Option<&str>) -> Option<Seq<char>> {
    match css {
        Some(c) => Some(c@),
        None => None,
    }
}

/// Page `i` of the listing is the page of tag `i - 1`: at its derived
/// path, holding exactly the posts carrying the tag.
pub open spec fn tag_page_at(
    pages: Seq<Page>,
    i: int,
    models: Seq<PostListModel>,
    tags: Seq<Seq<char>>,
    brand: Seq<char>,
    cssv: Option<Seq<char>>,
) -> bool {
    &&& pages[i].rel_path@ == "tags/tag_"@ + lower_of(tags[i - 1]) + ".html"@
    &&& pages[i].html@ == list_page_html(
        "Tag: "@ + tags[i - 1],
        posts_with_tag(models, tags[i - 1]),
        tags,
        "../"@,
        brand,
        cssv,
    )
}

/// The first `upto` tag pages of a page list are correct.
pub open spec fn tag_pages_ok(
    pages: Seq<Page>,
    upto: int,
    models: Seq<PostListModel>,
    tags: Seq<Seq<char>>,
    brand: Seq<char>,
    cssv: Option<Seq<char>>,
) -> bool
    decreases upto,
{
    if upto <= 0 {
        true
    } else {
        tag_pages_ok(pages, upto - 1, models, tags, brand, cssv) && tag_page_at(
            pages,
            upto,
            models,
            tags,
            brand,
            cssv,
        )
    }
}

/// What `tag_pages_ok` says of each page in its range.
pub proof fn lemma_tag_page_at(
    pages: Seq<Page>,
    upto: int,
    models: Seq<PostListModel>,
    tags: Seq<Seq<char>>,
    brand: Seq<char>,
    cssv: Option<Seq<char>>,
    i: int,
)
    requires
        tag_pages_ok(pages, upto, models, tags, brand, cssv),
        1 <= i <= upto,
    ensures
        tag_page_at(pages, i, models, tags, brand, cssv),
    decreases upto,
{
    if i < upto {
        lemma_tag_page_at(pages, upto - 1, models, tags, brand, cssv, i);
    }
}

/// Appending pages at the end does not disturb the ones already checked.
proof fn lemma_tag_pages_push(
    pages: Seq<Page>,
    upto: int,
    models: Seq<PostListModel>,
    tags: Seq<Seq<char>>,
    brand: Seq<char>,
    cssv: Option<Seq<char>>,
    x: Page,
)
    requires
        tag_pages_ok(pages, upto, models, tags, brand, cssv),
        upto < pages.len(),
    ensures
        tag_pages_ok(pages.push(x), upto, models, tags, brand, cssv),
    decreases upto,
{
    if upto > 0 {
        lemma_tag_pages_push(pages, upto - 1, models, tags, brand, cssv, x);
        assert(pages.push(x)[upto] == pages[upto]);
    }
}

/// Phase 5: generate the listing pages — the index over all posts, then
/// one page per known tag holding exactly the posts carrying it. The
/// output is a deterministic function of the sorted post list and the
/// frozen tag set.
pub fn build_listing_pages(
    posts_sorted: &Vec<PostListItem>,
    all_tags: &TagSet,
    config: &Config,
    css: Option<&str>,
) -> (r: Vec<Page>)
    ensures
        r@.len() == 1 + all_tags@.len(),
        r@[0].rel_path@ == "index.html"@,
        r@[0].html@ == list_page_html(
            "Index"@,
            posts_sorted@.map_values(|p: PostListItem| p@),
            all_tags@,
            ""@,
            config.brand_name@,
            css_view(css),
        ),
        tag_pages_ok(
            r@,
            all_tags@.len() as int,
            posts_sorted@.map_values(|p: PostListItem| p@),
            all_tags@,
            config.brand_name@,
            css_view(css),
        ),
{
    let ghost models = posts_sorted@.map_values(|p: PostListItem| p@);
    let ghost cssv = css_view(css);
    let mut pages: Vec<Page> = Vec::new();
    let index_html = build_list_page("Index", posts_sorted, all_tags, "", config, css);
    pages.push(Page { rel_path: str_to_string("index.html"), html: index_html });
    let tags = all_tags.as_vec();
    let tn = tags.len();
    let mut k: usize = 0;
    while k < tn
        invariant
            k <= tn,
            tn == all_tags@.len(),
            tags@.map_values(|t: Tag| t@) == all_tags@,
            models == posts_sorted@.map_values(|p: PostListItem| p@),
            cssv == css_view(css),
            pages@.len() == 1 + k,
            pages@[0].rel_path@ == "index.html"@,
            pages@[0].html@ == list_page_html(
                "Index"@,
                models,
                all_tags@,
                ""@,
                config.brand_name@,
                cssv,
            ),
            tag_pages_ok(pages@, k as int, models, all_tags@, config.brand_name@, cssv),
        decreases tn - k,
    {
        proof {
            assert(all_tags@[k as int] == tags@[k as int]@);
        }
        let tag = &tags[k];
        let tag_posts = filter_posts_by_tag(posts_sorted, tag);
        let mut title = str_to_string("Tag: ");
        title.append(tag.as_str());
        let html = build_list_page(title.as_str(), &tag_posts, all_tags, "../", config, css);
        let mut rel_path = str_to_string("tags/tag_");
        rel_path.append(tag.to_lowercase().as_str());
        rel_path.append(".html");
        let ghost rp = rel_path@;
        let ghost hv = html@;
        let ghost old_pages = pages@;
        pages.push(Page { rel_path, html });
        proof {
            assert(pages@.drop_last() =~= old_pages);
            assert(pages@[1 + k as int].rel_path@ == rp);
            assert(pages@[1 + k as int].html@ == hv);
            assert(rp == "tags/tag_"@ + lower_of(all_tags@[k as int]) + ".html"@);
            assert(hv == list_page_html(
                "Tag: "@ + all_tags@[k as int],
                posts_with_tag(models, all_tags@[k as int]),
                all_tags@,
                "../"@,
                config.brand_name@,
                cssv,
            ));
            lemma_tag_pages_push(
                old_pages,
                k as int,
                models,
                all_tags@,
                config.brand_name@,
                cssv,
                pages@[k + 1],
            );
            assert(pages@ =~= old_pages.push(pages@[k + 1]));
            assert(tag_pages_ok(pages@, k as int, models, all_tags@, config.brand_name@, cssv));
            assert(tag_page_at(pages@, k + 1, models, all_tags@, config.brand_name@, cssv));
            assert(tag_pages_ok(pages@, k + 1, models, all_tags@, config.brand_name@, cssv));
        }
        k += 1;
    }
    pages
}

/// The posts carrying one tag, as fresh list items.
fn filter_posts_by_tag(posts: &Vec<PostListItem>, tag: &Tag) -> (r: Vec<PostListItem>)
    ensures
        r@.map_values(|p: PostListItem| p@) == posts_with_tag(
            posts@.map_values(|p: PostListItem| p@),
            tag@,
        ),
{
    let ghost models = posts@.map_values(|p: PostListItem| p@);
    let mut r: Vec<PostListItem> = Vec::new();
    let n = posts.len();
    let mut i: usize = 0;
    proof {
        assert(models.subrange(0, 0) =~= Seq::<PostListModel>::empty());
        assert(r@.map_values(|p: PostListItem| p@) =~= Seq::<PostListModel>::empty());
    }
    while i < n
        invariant
            i <= n,
            n == models.len(),
            models == posts@.map_values(|p: PostListItem| p@),
            r@.map_values(|p: PostListItem| p@) == posts_with_tag(
                models.subrange(0, i as int),
                tag@,
            ),
        decreases n - i,
    {
        proof {
            assert(models.subrange(0, i + 1).drop_last() =~= models.subrange(0, i as int));
            assert(models.subrange(0, i + 1).last() == models[i as int]);
            assert(models[i as int] == posts@[i as int]@);
        }
        let ghost old_models = r@.map_values(|p: PostListItem| p@);
        if post_has_tag(&posts[i], tag) {
            r.push(posts[i].duplicate());
            proof {
                assert(r@.map_values(|p: PostListItem| p@) =~= old_models.push(
                    posts@[i as int]@,
                ));
            }
        }
        i += 1;
    }
    proof {
        assert(models.subrange(0, n as int) =~= models);
    }
    r
}

} // verus!
